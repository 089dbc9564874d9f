use cao_lang::compiler::card::{Card, CardBody, ForEach, Function, UnaryExpression};

fn foreach_card() -> Card {
    Card::new(CardBody::ForEach(Box::new(ForEach {
        i: None,
        k: None,
        v: None,
        iterable: Box::new(Card::new(CardBody::ScalarInt(42))),
        body: Box::new(Card::string_card("winnie".to_string())),
    })))
}

#[test]
fn test_iter_indexing_consistent() {
    let card: Card = foreach_card();

    for (i, a) in card.iter_children().into_iter().enumerate() {
        let _b = card.get_child(i);
        assert!(matches!(Some(a), _b));
    }
}

#[test]
fn iter_children_match_get_child() {
    let card = foreach_card();
    let children = card.iter_children();
    assert_eq!(children.len(), 2);
    for (i, c) in children.iter().enumerate() {
        assert!(std::ptr::eq(*c, card.get_child(i).unwrap()));
    }
    assert!(card.get_child(2).is_none());
    assert_eq!(card.num_children(), 2);
    assert_eq!(card.name(), "ForEach");
}

#[test]
fn remove_child_from_list_and_from_fixed_card() {
    let mut array = Card::new(CardBody::Array(vec![
        Card::scalar_int(1),
        Card::scalar_int(2),
        Card::scalar_int(3),
    ]));
    let removed = array.remove_child(1).unwrap();
    assert!(matches!(removed.body, CardBody::ScalarInt(2)));
    assert_eq!(array.num_children(), 2);
    assert!(array.remove_child(2).is_none());

    let mut ret = Card::return_card(Card::scalar_int(7));
    let removed = ret.remove_child(0).unwrap();
    assert!(matches!(removed.body, CardBody::ScalarInt(7)));
    assert_eq!(ret.num_children(), 1);
    assert!(matches!(ret.get_child(0).unwrap().body, CardBody::ScalarNil));

    let mut rep = Card::repeat(Card::scalar_int(5), None, Card::string_card("x".to_string()));
    rep.remove_child(0).unwrap();
    assert!(matches!(rep.get_child(0).unwrap().body, CardBody::ScalarInt(0)));
    rep.remove_child(1).unwrap();
    assert!(matches!(rep.get_child(1).unwrap().body, CardBody::ScalarNil));
    assert!(rep.remove_child(2).is_none());
}

#[test]
fn insert_child_inserts_or_replaces() {
    let mut comp = Card::composite_card("c".to_string(), vec![Card::scalar_int(1)]);
    comp.insert_child(0, Card::scalar_int(0)).unwrap();
    assert_eq!(comp.num_children(), 2);
    assert!(matches!(comp.get_child(0).unwrap().body, CardBody::ScalarInt(0)));
    let back = comp.insert_child(5, Card::scalar_int(9)).unwrap_err();
    assert!(matches!(back.body, CardBody::ScalarInt(9)));

    let mut sum = Card::new(CardBody::Add(Box::new([Card::scalar_int(1), Card::scalar_int(2)])));
    sum.insert_child(1, Card::scalar_int(3)).unwrap();
    assert_eq!(sum.num_children(), 2);
    assert!(matches!(sum.get_child(1).unwrap().body, CardBody::ScalarInt(3)));
    assert!(sum.insert_child(2, Card::scalar_int(4)).is_err());

    // a call hands the card back for an argument index past its end
    let mut call = Card::call_function("f".to_string(), vec![]);
    assert!(call.insert_child(3, Card::scalar_int(1)).is_err());
    assert_eq!(call.num_children(), 0);

    let mut leaf = Card::scalar_int(1);
    assert!(leaf.insert_child(0, Card::scalar_int(2)).is_err());

    let mut dynamic = Card::dynamic_call(Card::function_value("f".to_string()), vec![]);
    dynamic.insert_child(1, Card::scalar_int(8)).unwrap();
    assert_eq!(dynamic.num_children(), 2);
    let old = dynamic.replace_child(0, Card::scalar_int(0)).unwrap();
    assert!(matches!(old.body, CardBody::Function(_)));
}

#[test]
fn card_names_and_closures() {
    let closure = Card::new(CardBody::Closure(Box::new(
        Function::default()
            .with_arg("a")
            .with_card(Card::read_var("a".to_string())),
    )));
    assert_eq!(closure.name(), "Closure");
    assert_eq!(closure.num_children(), 1);
    assert_eq!(Card::new(CardBody::Or(Box::new([Card::default(), Card::default()]))).name(), "Either");
    let comp = Card::composite_card("MyCard".to_string(), vec![]);
    assert_eq!(comp.name(), "MyCard");
    assert!(comp.as_composite_card().is_some());
    assert!(Card::scalar_int(1).as_composite_card().is_none());
    let un = UnaryExpression::new(Card::scalar_int(1));
    assert!(matches!(un.card.body, CardBody::ScalarInt(1)));
}

#[test]
fn card_builders_make_the_named_cards() {
    let c = Card::set_var("x".to_string(), Card::scalar_int(1));
    assert!(matches!(&c.body, CardBody::SetVar(s) if s.name == "x"));
    let c = Card::set_global_var("g".to_string(), Card::scalar_int(1));
    assert!(matches!(&c.body, CardBody::SetGlobalVar(s) if s.name == "g"));
    let c = Card::call_native("print".to_string(), vec![Card::scalar_int(1), Card::scalar_int(2)]);
    assert_eq!(c.num_children(), 2);
    let c = Card::set_property(Card::scalar_int(1), Card::scalar_int(2), Card::scalar_int(3));
    assert!(matches!(c.get_child(2).unwrap().body, CardBody::ScalarInt(3)));
    let c = Card::get_property(Card::scalar_int(1), Card::scalar_int(2));
    assert!(matches!(c.get_child(0).unwrap().body, CardBody::ScalarInt(1)));
    let f = Function::default().with_cards(vec![Card::scalar_int(4)]);
    assert_eq!(f.cards.len(), 1);
}

#[test]
fn child_access_for_writing() {
    let mut c = Card::get_property(Card::scalar_int(1), Card::scalar_int(2));
    *c.get_child_mut(1).unwrap() = Card::scalar_int(9);
    assert!(matches!(c.get_child(1).unwrap().body, CardBody::ScalarInt(9)));
    assert!(c.get_child_mut(2).is_none());
    assert!(c.accepts_child_at(1));
    assert!(!c.accepts_child_at(2));
    let mut comp = Card::composite_card("t".to_string(), vec![]);
    comp.as_composite_card_mut().unwrap().cards.push(Card::scalar_int(5));
    assert_eq!(comp.num_children(), 1);
    assert!(c.as_composite_card_mut().is_none());
}
