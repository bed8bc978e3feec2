use fuzzy_resolution::types::Constant;
use fuzzy_resolution::types::Function;
use fuzzy_resolution::types::Term;
use fuzzy_resolution::types::Variable;
use fuzzy_resolution::util::find_variables_in_terms;
use fuzzy_resolution::util::VariableSet;

fn const1() -> Constant {
    Constant::new("const1", None)
}

fn const2() -> Constant {
    Constant::new("const2", None)
}

fn func1() -> Function {
    Function::new("func1")
}

fn func2() -> Function {
    Function::new("func2")
}

fn x() -> Variable {
    Variable::new("X")
}

fn y() -> Variable {
    Variable::new("Y")
}

fn z() -> Variable {
    Variable::new("Z")
}

fn set_of(variables: Vec<Variable>) -> VariableSet {
    let mut set = VariableSet::new();
    for variable in variables {
        set.insert(variable);
    }
    set
}

#[test]
fn test_find_variables_in_terms_with_no_variables() {
    let terms = vec![Term::Constant(const1()), Term::Constant(const2())];
    let variables = find_variables_in_terms(&terms.iter().collect());
    assert_eq!(variables, set_of(vec![]));
}

#[test]
fn test_find_variables_with_one_variable() {
    let terms: Vec<Term> = vec![Term::Constant(const1()), Term::Variable(x())];
    let variables = find_variables_in_terms(&terms.iter().collect());
    assert_eq!(variables, set_of(vec![x()]));
}

#[test]
fn test_find_variables_with_repeated_variables() {
    let terms: Vec<Term> = vec![
        Term::Constant(const1()),
        Term::Variable(x()),
        Term::Variable(x()),
        Term::Variable(y()),
    ];
    let variables = find_variables_in_terms(&terms.iter().collect());
    assert_eq!(variables, set_of(vec![x(), y()]));
}

#[test]
fn test_find_variables_in_functions() {
    let terms: Vec<Term> = vec![
        Term::BoundFunction(func1().bind(vec![Term::Variable(x()), Term::Variable(y())])),
        Term::BoundFunction(func2().bind(vec![Term::Variable(x()), Term::Variable(z())])),
    ];
    let variables = find_variables_in_terms(&terms.iter().collect());
    assert_eq!(variables, set_of(vec![x(), y(), z()]));
}

#[test]
fn test_find_variables_in_nested_functions() {
    let terms: Vec<Term> = vec![Term::BoundFunction(func1().bind(vec![
        Term::BoundFunction(func2().bind(vec![Term::Variable(x()), Term::Variable(y())])),
        Term::Variable(z()),
    ]))];
    let variables = find_variables_in_terms(&terms.iter().collect());
    assert_eq!(variables, set_of(vec![x(), y(), z()]));
}

#[test]
fn variable_set_ignores_the_order_of_insertion() {
    let forwards = set_of(vec![x(), y(), z()]);
    let backwards = set_of(vec![z(), y(), x(), y()]);
    assert_eq!(forwards, backwards);
    assert_eq!(forwards.len(), 3);
    assert_eq!(forwards.get(0).name, "X");
    assert_eq!(forwards.get(2).name, "Z");
    assert!(forwards.contains(&y()));
    assert!(!forwards.contains(&Variable::new("W")));
}
