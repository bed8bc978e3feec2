use fuzzy_resolution::order::compare_literals;
use fuzzy_resolution::order::compare_names;
use fuzzy_resolution::order::compare_terms;
use fuzzy_resolution::order::Precedence;
use fuzzy_resolution::prover::finished_proof::resolve_var_value;
use fuzzy_resolution::prover::SubstitutionsMap;
use fuzzy_resolution::types::Atom;
use fuzzy_resolution::types::BoundFunction;
use fuzzy_resolution::types::CNFDisjunction;
use fuzzy_resolution::types::CNFLiteral;
use fuzzy_resolution::types::Constant;
use fuzzy_resolution::types::Function;
use fuzzy_resolution::types::Predicate;
use fuzzy_resolution::types::SimilarityComparable;
use fuzzy_resolution::types::Term;
use fuzzy_resolution::types::Variable;
use fuzzy_resolution::util::ClauseSet;
use fuzzy_resolution::util::LiteralSet;
use fuzzy_resolution::util::PyArcItem;

fn k(name: &str) -> Term {
    Term::Constant(Constant::new(name, None))
}

fn v(name: &str) -> Term {
    Term::Variable(Variable::new(name))
}

fn f(name: &str, terms: Vec<Term>) -> Term {
    Term::BoundFunction(Function::new(name).bind(terms))
}

fn lit(predicate: &str, terms: Vec<Term>, polarity: bool) -> PyArcItem<CNFLiteral> {
    PyArcItem::new(CNFLiteral::new(Predicate::new(predicate, None).atom(terms), polarity))
}

#[test]
fn symbols_are_told_apart_by_name_and_embedding() {
    let plain = Predicate::new("p", None);
    let again = Predicate::new("p", None);
    let embedded = Predicate::new("p", Some(1));
    let other = Predicate::new("p", Some(2));
    assert_eq!(plain, again);
    assert_eq!(plain.similarity_key(), again.similarity_key());
    assert_ne!(plain, embedded);
    assert_ne!(embedded, other);
    assert_ne!(embedded.similarity_key(), other.similarity_key());
    assert_eq!(plain.symbol(), "p");
    assert_eq!(embedded.embedding(), Some(1));
    assert_eq!(plain.clone(), plain);
    let constant = Constant::new("c", Some(4));
    assert_eq!(constant.clone(), constant);
    assert_eq!(constant.symbol(), "c");
    assert_eq!(constant.embedding(), Some(4));
    assert_eq!(constant.similarity_key(), Constant::new("c", Some(4)).similarity_key());
}

#[test]
fn terms_are_built_and_copied() {
    let bound = BoundFunction::new(Function::new("g"), vec![v("X"), k("a")]);
    let term: Term = bound.clone().into();
    assert_eq!(term, f("g", vec![v("X"), k("a")]));
    assert_eq!(term.clone(), term);
    let as_term: Term = Variable::new("X").into();
    assert_eq!(as_term, v("X"));
    let as_term: Term = Constant::new("a", None).into();
    assert_eq!(as_term, k("a"));
    let atom = Atom::new(Predicate::new("p", None), vec![term.clone()]);
    assert_eq!(atom, Predicate::new("p", None).atom(vec![term]));
    assert_eq!(atom.clone(), atom);
}

#[test]
fn names_are_ordered_as_their_bytes_are() {
    let name = |s: &str| s.to_string();
    assert_eq!(compare_names(&name("a"), &name("b")), Precedence::Before);
    assert_eq!(compare_names(&name("b"), &name("a")), Precedence::After);
    assert_eq!(compare_names(&name("ab"), &name("ab")), Precedence::Same);
    assert_eq!(compare_names(&name("a"), &name("ab")), Precedence::Before);
    assert_eq!(compare_names(&name(""), &name("a")), Precedence::Before);
    assert_eq!(compare_names(&name("Z"), &name("a")), Precedence::Before);
    assert_eq!(compare_names(&name("z"), &name("é")), Precedence::Before);
    assert_eq!(compare_names(&name("é"), &name("日")), Precedence::Before);
    assert_eq!(name("é") < name("日"), true);
}

#[test]
fn terms_are_ordered_by_kind_and_then_by_content() {
    assert_eq!(compare_terms(&k("z"), &v("A")), Precedence::Before);
    assert_eq!(compare_terms(&v("Z"), &f("a", vec![])), Precedence::Before);
    assert_eq!(compare_terms(&f("a", vec![]), &k("z")), Precedence::After);
    assert_eq!(compare_terms(&v("X"), &v("Y")), Precedence::Before);
    assert_eq!(
        compare_terms(&f("g", vec![k("a")]), &f("g", vec![k("a"), k("b")])),
        Precedence::Before
    );
    assert_eq!(
        compare_terms(&f("g", vec![k("b")]), &f("g", vec![k("a"), k("b")])),
        Precedence::After
    );
    assert_eq!(
        compare_terms(&f("g", vec![f("h", vec![v("X")])]), &f("g", vec![f("h", vec![v("X")])])),
        Precedence::Same
    );
    let with_embedding = Term::Constant(Constant::new("a", Some(0)));
    assert_eq!(compare_terms(&k("a"), &with_embedding), Precedence::Before);
}

#[test]
fn a_clause_keeps_its_literals_in_order_and_once() {
    let denied = lit("p", vec![k("a")], false);
    let asserted = lit("p", vec![k("a")], true);
    let other = lit("o", vec![k("z")], true);
    assert_eq!(compare_literals(&denied.item, &asserted.item), Precedence::Before);
    assert_eq!(compare_literals(&other.item, &denied.item), Precedence::Before);
    let clause = CNFDisjunction::new(LiteralSet::from_vec(vec![
        asserted.clone(),
        denied.clone(),
        other.clone(),
        asserted.clone(),
    ]));
    assert_eq!(clause.literals.len(), 3);
    assert_eq!(clause.literals.first(), Some(&other));
    assert_eq!(clause.literals.get(1), &denied);
    assert_eq!(clause.literals.get(2), &asserted);
    assert!(clause.literals.contains(&asserted.item));
    let mut fewer = clause.literals.clone();
    assert!(fewer.remove(&denied.item));
    assert!(!fewer.remove(&denied.item));
    assert_eq!(fewer, LiteralSet::from_vec(vec![other.clone(), asserted.clone()]));
    assert!(fewer.insert(denied.clone()));
    assert!(!fewer.insert(denied));
    assert_eq!(fewer, clause.literals);
    assert!(LiteralSet::new().is_empty());
    assert_eq!(LiteralSet::new().first(), None);
    assert_eq!(clause.clone(), clause);
}

#[test]
fn a_set_of_clauses_keeps_them_in_order_and_once() {
    let short = CNFDisjunction::new(LiteralSet::from_vec(vec![lit("p", vec![], true)]));
    let long = CNFDisjunction::new(LiteralSet::from_vec(vec![
        lit("p", vec![], true),
        lit("q", vec![], true),
    ]));
    let early = CNFDisjunction::new(LiteralSet::from_vec(vec![lit("a", vec![], true)]));
    let empty = CNFDisjunction::new(LiteralSet::new());
    let mut set = ClauseSet::new();
    assert!(set.insert(PyArcItem::new(long.clone())));
    assert!(set.insert(PyArcItem::new(short.clone())));
    assert!(set.insert(PyArcItem::new(early.clone())));
    assert!(set.insert(PyArcItem::new(empty.clone())));
    assert!(!set.insert(PyArcItem::new(short.clone())));
    assert_eq!(set.len(), 4);
    assert_eq!(*set.get(0).item, empty);
    assert_eq!(*set.get(1).item, early);
    assert_eq!(*set.get(2).item, short);
    assert_eq!(*set.get(3).item, long);
    assert!(set.contains(&long));
    assert_eq!(short.literals.compare(&long.literals), Precedence::Before);
    assert_eq!(long.literals.compare(&long.literals), Precedence::Same);
    let mut more = ClauseSet::new();
    more.extend(&set);
    assert_eq!(more, set);
    assert_eq!(set.clone(), set);
}

#[test]
fn a_substitution_maps_each_variable_once() {
    let mut map = SubstitutionsMap::new();
    assert!(map.is_empty());
    map.insert(Variable::new("Y"), k("b"));
    map.insert(Variable::new("X"), k("a"));
    map.insert(Variable::new("Y"), k("c"));
    assert_eq!(map.len(), 2);
    assert_eq!(map.key_at(0).name, "X");
    assert_eq!(map.value_at(1), &k("c"));
    assert_eq!(map.get(&Variable::new("Y")), Some(&k("c")));
    assert_eq!(map.get(&Variable::new("Z")), None);
    assert!(map.contains_key(&Variable::new("X")));
    assert!(!map.contains_key(&Variable::new("Z")));
    let mut other = SubstitutionsMap::new();
    other.insert(Variable::new("X"), k("a"));
    other.insert(Variable::new("Y"), k("c"));
    assert_eq!(map, other);
    assert_eq!(map.clone(), map);
}

#[test]
fn a_value_is_followed_through_the_steps() {
    let step = |entries: Vec<(&str, Term)>| {
        let mut map = SubstitutionsMap::new();
        for (name, term) in entries {
            map.insert(Variable::new(name), term);
        }
        map
    };
    let steps = vec![
        step(vec![("X", v("Y"))]),
        step(vec![("Y", f("g", vec![v("Z"), v("W"), k("a")]))]),
        step(vec![("Z", k("b")), ("X", k("c"))]),
    ];
    // X is Y after the first step, g(Z, W, a) after the second, g(b, W, a) after the third
    assert_eq!(resolve_var_value(&v("X"), &steps, 0), f("g", vec![k("b"), v("W"), k("a")]));
    // from the second step on X is untouched until the third
    assert_eq!(resolve_var_value(&v("X"), &steps, 1), k("c"));
    assert_eq!(resolve_var_value(&v("X"), &steps, 3), v("X"));
    assert_eq!(resolve_var_value(&k("a"), &steps, 0), k("a"));
    // a function term that no variable led to stays as it is
    assert_eq!(resolve_var_value(&f("g", vec![v("X")]), &steps, 0), f("g", vec![v("X")]));
    // a constant ends the chain
    let steps = vec![step(vec![("X", k("a"))]), step(vec![("X", k("b"))])];
    assert_eq!(resolve_var_value(&v("X"), &steps, 0), k("a"));
}
