use rhai::ast::atom::{Atom, Float};
use rhai::ast::binaryop::BinaryOperation;
use rhai::ast::block::Block;
use rhai::ast::expression::Expression;
use rhai::ast::function::Function;
use rhai::ast::parameter::Parameter;
use rhai::ast::stmt::Statement;
use rhai::api::files::strip_shebang;
use rhai::engine::Engine;
use rhai::names::NameMap;
use rhai::object::ta::{Object, TaMethod, TA};
use rhai::package::lib::Library;
use rhai::package::math::Math;
use rhai::types::error::EvalAltResult;
use rhai::types::scope::Scope;

fn ival(v: i64) -> Expression {
    Expression::Atom(Atom::Integer(v))
}

fn var(n: &str) -> Expression {
    Expression::Atom(Atom::Variable(n.to_string()))
}

fn param(n: &str) -> Parameter {
    Parameter { name: n.to_string(), default_value: None }
}

#[test]
fn name_map_read_after_write() {
    let mut m: NameMap<i64> = NameMap::new();
    assert_eq!(m.len(), 0);
    m.insert("a".to_string(), 1);
    m.insert("b".to_string(), 2);
    m.insert("a".to_string(), 3);
    assert_eq!(m.get("a"), Some(&3));
    assert_eq!(m.get("b"), Some(&2));
    assert_eq!(m.get("c"), None);
    assert!(m.contains("b"));
    assert!(!m.contains("c"));
    assert_eq!(m.len(), 2);
}

#[test]
fn scope_variables_and_functions() {
    let mut s: Scope = Scope::new();
    assert_eq!(s.get_variable("x"), None);
    s.set_variable("x".to_string(), ival(4));
    s.set_variable("x".to_string(), ival(5));
    assert_eq!(s.get_variable("x"), Some(ival(5)));
    let f = Function {
        name: "id".to_string(),
        parameters: vec![param("v")],
        body: Block { statements: vec![], return_expr: var("v") },
    };
    s.set_function("id".to_string(), f);
    assert_eq!(s.get_function("id").unwrap().parameters.len(), 1);
    assert!(s.get_function("other").is_none());
    let copy = s.copy_variables();
    assert_eq!(copy.get("x"), Some(&ival(5)));
}

#[test]
fn scope_objects_and_imports() {
    let mut s: Scope = Scope::new();
    s.set_object("ta".to_string(), Object::TA(TA::new()));
    match s.get_object("ta") {
        Some(Object::TA(t)) => assert_eq!(t.methods.get("change"), Some(&TaMethod::Change)),
        None => panic!("object missing"),
    }
    assert!(s.get_object("tb").is_none());
    let mut module: NameMap<Expression> = NameMap::new();
    module.insert("pi".to_string(), ival(3));
    s.import_module("consts", module);
    assert_eq!(s.get_import("consts", "pi"), Some(ival(3)));
    assert_eq!(s.get_import("consts", "e"), None);
    assert_eq!(s.get_import("other", "pi"), None);
}

#[test]
fn scope_libraries() {
    let mut s: Scope = Scope::new();
    assert_eq!(
        s.call_library_function("math", "abs", vec![]),
        Err("Library 'math' not found".to_string())
    );
    assert!(!s.import_library("physics"));
    assert!(s.import_library("math"));
    let neg = Float::Bits((-2.5f64).to_bits());
    assert_eq!(
        s.call_library_function("math", "abs", vec![Expression::Atom(Atom::Double(Float::Bits((-2.5f64).to_bits())))]),
        Ok(Expression::Atom(Atom::Double(Float::Abs(Box::new(neg)))))
    );
}

#[test]
fn math_library_errors() {
    assert_eq!(Math.call_method("abs", vec![ival(1)]), Err("Invalid argument for math.abs".to_string()));
    assert_eq!(Math.call_method("abs", vec![]), Err("Invalid argument for math.abs".to_string()));
    assert_eq!(Math.call_method("sqrt", vec![]), Err("Function sqrt not found in math library".to_string()));
}

#[test]
fn ta_handlers() {
    let ta = TA::new();
    let s = Expression::Atom(Atom::String("Bull".to_string()));
    assert_eq!(TA::handle_change(&ta, vec![s, ival(22)]), Ok(ival(22)));
    let s = Expression::Atom(Atom::String("Bull".to_string()));
    assert_eq!(TA::handle_cci(&ta, vec![s, ival(7)]), Ok(Expression::Atom(Atom::Double(Float::FromInt(7)))));
    assert_eq!(TA::handle_change(&ta, vec![ival(1)]), Err("Invalid number of arguments for ta.change".to_string()));
    assert_eq!(TA::handle_cci(&ta, vec![ival(1), ival(2)]), Err("Invalid arguments for ta.cci".to_string()));
}

#[test]
fn eval_alt_result_kinds() {
    let e = EvalAltResult::from_message("boom");
    assert!(e.is_catchable());
    match e {
        EvalAltResult::ErrorRuntime(a, b) => {
            assert_eq!(a, "boom");
            assert_eq!(b, "boom");
        }
        EvalAltResult::ErrorSystem(..) => panic!("wrong kind"),
    }
    assert!(!EvalAltResult::ErrorSystem("x".to_string(), "y".to_string()).is_catchable());
}

#[test]
fn evaluate_integer_arithmetic() {
    let mut s: Scope = Scope::new();
    s.set_variable("a".to_string(), ival(-7));
    let e = Expression::BinaryOperation(BinaryOperation::Divide, Box::new(var("a")), Box::new(ival(2)));
    assert_eq!(e.evaluate(&mut s), Ok(ival(-3)));
    let e = Expression::BinaryOperation(BinaryOperation::Times, Box::new(var("a")), Box::new(ival(6)));
    assert_eq!(e.evaluate(&mut s), Ok(ival(-42)));
    let e = Expression::BinaryOperation(BinaryOperation::Equal, Box::new(ival(1)), Box::new(ival(1)));
    assert_eq!(e.evaluate(&mut s), Err("Unsupported binary operation".to_string()));
}

#[test]
fn evaluate_function_expression_defines_it() {
    let mut s: Scope = Scope::new();
    let f = Function {
        name: "two".to_string(),
        parameters: vec![],
        body: Block { statements: vec![], return_expr: ival(2) },
    };
    let r = Expression::Function(Box::new(f)).evaluate(&mut s);
    assert!(r.is_ok());
    let call = Expression::FunctionCall("two".to_string(), vec![]);
    assert_eq!(call.evaluate(&mut s), Ok(ival(2)));
    let missing = Expression::FunctionCall("three".to_string(), vec![]);
    assert_eq!(missing.evaluate(&mut s), Err("Function 'three' not found".to_string()));
}

#[test]
fn function_call_binds_parameters_and_declarations() {
    let f = Function {
        name: "f".to_string(),
        parameters: vec![param("x"), param("y")],
        body: Block {
            statements: vec![Statement::VariableDeclaration(
                "s".to_string(),
                Expression::BinaryOperation(BinaryOperation::Minus, Box::new(var("x")), Box::new(var("y"))),
            )],
            return_expr: Expression::Tuple(vec![var("s"), var("x")]),
        },
    };
    let s: Scope = Scope::new();
    assert_eq!(f.call(vec![ival(10), ival(4)], &s), Ok(Expression::Tuple(vec![ival(6), ival(10)])));
    assert_eq!(f.call(vec![ival(10)], &s), Err("Argument count mismatch".to_string()));
}

#[test]
fn engine_without_scopes_ignores_registration() {
    let mut e = Engine::default();
    let f = Function { name: "g".to_string(), parameters: vec![], body: Block { statements: vec![], return_expr: ival(0) } };
    e.register_fn("g".to_string(), f);
    let e2 = Engine::new_raw();
    assert!(e2.run_ast("g(1)").is_err());
    assert!(e.run_ast("g(1)").is_err());
}

#[test]
fn shebang_line_is_dropped() {
    assert_eq!(strip_shebang("#!/usr/bin/rhai\nx = 1".to_string()), "\nx = 1");
    assert_eq!(strip_shebang("#!only".to_string()), "");
    assert_eq!(strip_shebang("x = 1\n#!".to_string()), "x = 1\n#!");
    let once = strip_shebang("#!a\n#!b\n".to_string());
    assert_eq!(strip_shebang(once.clone()), once);
}

#[test]
fn error_text() {
    assert_eq!(EvalAltResult::ErrorRuntime("bad".to_string(), "worse".to_string()).to_string(), "bad: worse");
    assert_eq!(EvalAltResult::ErrorSystem("".to_string(), "io".to_string()).to_string(), "io");
    assert_eq!(
        EvalAltResult::ErrorSystem("Cannot open script file 'a'".to_string(), "not found".to_string()).to_string(),
        "Cannot open script file 'a': not found"
    );
}

#[test]
fn scope_clone_keeps_all_but_libraries() {
    let mut s: Scope = Scope::new();
    s.set_variable("v".to_string(), ival(9));
    s.set_object("ta".to_string(), Object::TA(TA::new()));
    s.import_library("math");
    let mut module: NameMap<Expression> = NameMap::new();
    module.insert("k".to_string(), ival(1));
    s.import_module("m", module);
    let c = s.clone();
    assert_eq!(c.get_variable("v"), Some(ival(9)));
    assert!(c.get_object("ta").is_some());
    assert_eq!(c.get_import("m", "k"), Some(ival(1)));
    assert_eq!(c.call_library_function("math", "abs", vec![]), Err("Library 'math' not found".to_string()));
}

#[test]
fn closed_expression_evaluates_and_leaves_scope() {
    let mut s: Scope = Scope::new();
    let e = Expression::Tuple(vec![
        Expression::BinaryOperation(BinaryOperation::Plus, Box::new(ival(2)), Box::new(ival(3))),
        Expression::Atom(Atom::Boolean(true)),
    ]);
    assert_eq!(e.evaluate(&mut s), Ok(Expression::Tuple(vec![ival(5), Expression::Atom(Atom::Boolean(true))])));
    assert_eq!(s.get_variable("x"), None);
    assert!(s.get_function("f").is_none());
}
