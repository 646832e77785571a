use rhai::ast::atom::{Atom, Float};
use rhai::ast::binaryop::BinaryOperation;
use rhai::ast::block::Block;
use rhai::ast::expression::Expression;
use rhai::ast::function::Function;
use rhai::ast::parameter::Parameter;
use rhai::ast::stmt::Statement;
use rhai::genv::script::builtin::{BuiltinLibrary, MathLibrary};
use rhai::genv::script::context::Context;
use rhai::genv::script::parser::parse_statement;

fn num(v: i64) -> Expression {
    Expression::Atom(Atom::Integer(v))
}

fn var(n: &str) -> Expression {
    Expression::Atom(Atom::Variable(n.to_string()))
}

#[test]
fn test_math_abs() {
    let code = "x = math.abs(-1)";
    let mut context = Context::new();
    let ast = parse_statement(code).unwrap().1;
    ast.execute(&mut context).unwrap();

    if let Some(Expression::Atom(Atom::Integer(x))) = context.get_variable("x") {
        assert_eq!(x, 1);
    } else {
        panic!("Variable 'x' not found or incorrect type");
    }
}

#[test]
fn math_library_call() {
    assert_eq!(MathLibrary.call("math.abs", vec![num(-9)]), Ok(num(9)));
    assert_eq!(MathLibrary.call("math.abs", vec![num(4)]), Ok(num(4)));
    assert_eq!(MathLibrary.call("math.abs", vec![var("v")]), Err("Invalid argument for math.abs".to_string()));
    assert_eq!(MathLibrary.call("math.max", vec![]), Err("Function math.max not found in math library".to_string()));
}

#[test]
fn builtin_lookup_by_prefix() {
    let context = Context::new();
    assert!(context.get_builtin("math").is_some());
    assert!(context.get_builtin("other").is_none());
    let e = Expression::MethodCall("math".to_string(), "abs".to_string(), vec![num(-2)]);
    assert_eq!(e.evaluate_in_context(&context), Ok(num(2)));
    let e = Expression::FunctionCall("nope.abs".to_string(), vec![]);
    assert_eq!(e.evaluate_in_context(&context), Err("Function 'nope.abs' not found".to_string()));
}

#[test]
fn atoms_evaluate_to_themselves() {
    let context = Context::new();
    assert_eq!(var("zz").evaluate_in_context(&context), Ok(var("zz")));
}

#[test]
fn operators_on_values() {
    let context = Context::new();
    let eq = Expression::BinaryOperation(BinaryOperation::Equal, Box::new(num(3)), Box::new(num(3)));
    assert_eq!(eq.evaluate_in_context(&context), Ok(Expression::Atom(Atom::Boolean(true))));
    let ne = Expression::BinaryOperation(
        BinaryOperation::NotEqual,
        Box::new(Expression::Tuple(vec![num(1), var("a")])),
        Box::new(Expression::Tuple(vec![num(1), var("b")])),
    );
    assert_eq!(ne.evaluate_in_context(&context), Ok(Expression::Atom(Atom::Boolean(true))));
    let bad = Expression::BinaryOperation(
        BinaryOperation::Plus,
        Box::new(Expression::Atom(Atom::Double(Float::Bits(1.0f64.to_bits())))),
        Box::new(num(1)),
    );
    assert_eq!(bad.evaluate_in_context(&context), Err("Unsupported operation".to_string()));
    let div = Expression::BinaryOperation(BinaryOperation::Divide, Box::new(num(-9)), Box::new(num(4)));
    assert_eq!(div.evaluate_in_context(&context), Ok(num(-2)));
}

#[test]
fn statements_on_a_context() {
    let mut context = Context::new();
    let assign = Statement::Assignment("a".to_string(), num(1));
    assert_eq!(assign.execute(&mut context), Err("Variable 'a' not found".to_string()));
    Statement::VariableDeclaration("a".to_string(), num(1)).execute(&mut context).unwrap();
    Statement::Assignment("a".to_string(), num(2)).execute(&mut context).unwrap();
    assert_eq!(context.get_variable("a"), Some(num(2)));
    let tuple = Statement::TupleAssignment(vec!["p".to_string(), "q".to_string()], Expression::Tuple(vec![num(5), num(6)]));
    tuple.execute(&mut context).unwrap();
    assert_eq!(context.get_variable("q"), Some(num(6)));
    let short = Statement::TupleAssignment(vec!["p".to_string()], Expression::Tuple(vec![num(5), num(6)]));
    assert_eq!(short.execute(&mut context), Err("Tuple lengths do not match".to_string()));
    let not_tuple = Statement::TupleAssignment(vec!["p".to_string()], num(5));
    assert_eq!(not_tuple.execute(&mut context), Err("Right-hand side is not a tuple".to_string()));
    let call = Statement::FunctionCall("missing".to_string(), vec![]);
    assert_eq!(call.execute(&mut context), Err("Function 'missing' not found".to_string()));
}

#[test]
fn functions_run_every_statement_in_a_copy() {
    let mut context = Context::new();
    let body = Block {
        statements: vec![
            Statement::VariableDeclaration("t".to_string(), num(7)),
            Statement::Assignment("n".to_string(), num(0)),
        ],
        return_expr: Expression::Tuple(vec![var("t"), var("n")]),
    };
    let f = Function { name: "double".to_string(), parameters: vec![Parameter { name: "n".to_string(), default_value: None }], body };
    Statement::FunctionDefinition(f).execute(&mut context).unwrap();
    let g = context.get_function("double").unwrap();
    // Atoms, here the tuple's names, evaluate to themselves.
    assert_eq!(g.call_in_context(vec![num(21)], &context), Ok(Expression::Tuple(vec![var("t"), var("n")])));
    assert_eq!(g.call_in_context(vec![], &context), Err("Incorrect number of arguments".to_string()));
    Statement::FunctionCall("double".to_string(), vec![num(3)]).execute(&mut context).unwrap();
    let times = Statement::VariableDeclaration(
        "m".to_string(),
        Expression::BinaryOperation(BinaryOperation::Times, Box::new(var("n")), Box::new(num(2))),
    );
    assert_eq!(times.execute(&mut context), Err("Unsupported operation".to_string()));
    assert_eq!(context.get_variable("t"), None);
    assert_eq!(context.get_variable("n"), None);
}

#[test]
fn statement_text_of_the_variant() {
    let (rest, st) = parse_statement("x = math.abs(-1)").unwrap();
    assert_eq!(rest, "");
    assert_eq!(st, Statement::VariableDeclaration("x".to_string(), Expression::FunctionCall("math.abs".to_string(), vec![num(-1)])));
    let (rest, st) = parse_statement("y = abs(z)").unwrap();
    assert_eq!(rest, "");
    assert_eq!(st, Statement::VariableDeclaration("y".to_string(), Expression::FunctionCall("abs".to_string(), vec![var("z")])));
    let (_, st) = parse_statement("h = 2.5").unwrap();
    assert_eq!(st, Statement::VariableDeclaration("h".to_string(), Expression::Atom(Atom::Double(Float::Bits(2.5f64.to_bits())))));
    let (_, st) = parse_statement("k = 3e2").unwrap();
    assert_eq!(st, Statement::VariableDeclaration("k".to_string(), Expression::Atom(Atom::Double(Float::Bits(300f64.to_bits())))));
    let (_, st) = parse_statement("d = 7 - 2").unwrap();
    assert_eq!(st, Statement::VariableDeclaration("d".to_string(), Expression::BinaryOperation(BinaryOperation::Minus, Box::new(num(7)), Box::new(num(2)))));
    let mut context = Context::new();
    parse_statement("w = [a, b]").unwrap().1.execute(&mut context).unwrap();
    assert_eq!(context.get_variable("w"), Some(Expression::Tuple(vec![var("a"), var("b")])));
}
