use rhai::ast::atom::{Atom, Float};
use rhai::ast::binaryop::BinaryOperation;
use rhai::ast::expression::Expression;
use rhai::engine::Engine;
use rhai::package::math::Math;
use rhai::parser::method_call::parse_method_call;
use rhai::parser::parser::{parse_binary_operation, parse_binary_operator, parse_expression, parse_program, parse_statement, ParseError};
use rhai::types::scope::Scope;

fn dbl(x: f64) -> Expression {
    Expression::Atom(Atom::Double(Float::Bits(x.to_bits())))
}

#[test]
fn parse_method_call_test() {
    let input = "ta.change(\"Bull\", 22)";
    let result = parse_method_call(input);
    println!("{:?}", result);
    let (rest, e) = result.unwrap();
    assert_eq!(rest, "");
    assert_eq!(
        e,
        Expression::MethodCall(
            "ta".to_string(),
            "change".to_string(),
            vec![Expression::Atom(Atom::String("Bull".to_string())), Expression::Atom(Atom::Integer(22))]
        )
    );
}

#[test]
fn method_call_forms() {
    assert_eq!(parse_method_call("a.b()x"), Ok(("x".to_string(), Expression::MethodCall("a".to_string(), "b".to_string(), vec![]))));
    assert_eq!(
        parse_method_call("a.b(1, \t\"q\")"),
        Ok(("".to_string(), Expression::MethodCall("a".to_string(), "b".to_string(), vec![Expression::Atom(Atom::Integer(1)), Expression::Atom(Atom::String("q".to_string()))])))
    );
    assert_eq!(parse_method_call("a.b(1,2)"), Err(ParseError::Error));
    assert_eq!(parse_method_call("a.b(1, x)"), Err(ParseError::Error));
    assert_eq!(parse_method_call("ab(1)"), Err(ParseError::Error));
}

#[test]
fn method_call_through_the_language_parser() {
    let (rest, e) = parse_expression("ta.change(\"Bull\", 22)").unwrap();
    assert_eq!(rest, "");
    assert_eq!(
        e,
        Expression::MethodCall(
            "ta".to_string(),
            "change".to_string(),
            vec![Expression::Atom(Atom::String("Bull".to_string())), dbl(22.0)]
        )
    );
}

#[test]
fn run_ast_function_and_tuple_assignment() {
    let code = "\nfun(x, y) =>\n    a = x + y\n    b = x - y\n    [a, b]\n[m, n] = fun(8, 5)\n";
    let engine = Engine::new();
    let vars = engine.run_ast(code).unwrap();
    let m = vars.get("m").unwrap();
    let n = vars.get("n").unwrap();
    let eight = Float::Bits(8.0f64.to_bits());
    let five = Float::Bits(5.0f64.to_bits());
    assert_eq!(
        *m,
        Expression::Atom(Atom::Double(Float::Arith(
            BinaryOperation::Plus,
            Box::new(Float::Bits(8.0f64.to_bits())),
            Box::new(Float::Bits(5.0f64.to_bits()))
        )))
    );
    assert_eq!(*n, Expression::Atom(Atom::Double(Float::Arith(BinaryOperation::Minus, Box::new(eight), Box::new(five)))));
    assert!(vars.get("a").is_none());
}

#[test]
fn run_ast_declarations() {
    let engine = Engine::new();
    let vars = engine.run_ast("x = 2\ny = x").unwrap();
    assert_eq!(*vars.get("x").unwrap(), dbl(2.0));
    assert_eq!(*vars.get("y").unwrap(), dbl(2.0));
    assert_eq!(vars.len(), 2);
}

#[test]
fn run_ast_empty_program() {
    let engine = Engine::new();
    assert_eq!(engine.run_ast("   ").err(), Some("No statements parsed".to_string()));
}

#[test]
fn run_ast_broken_exponent() {
    let engine = Engine::new();
    let err = engine.run_ast("x = 1e").err().unwrap();
    assert_eq!(err, "Parse error: Failure(Error { input: \"1e\", code: Float })");
}

#[test]
fn run_ast_tuple_errors() {
    let engine = Engine::new();
    assert_eq!(engine.run_ast("[a, b] = [1]").err(), Some("Tuple assignment mismatch".to_string()));
    assert_eq!(engine.run_ast("[a] = \"s\"").err(), Some("Expected tuple expression".to_string()));
}

#[test]
fn run_ast_unknown_function_and_variable() {
    let engine = Engine::new();
    assert_eq!(engine.run_ast("g(1)").err(), Some("Function 'g' not found".to_string()));
    assert_eq!(engine.run_ast("x = y + 1").err(), Some("Undefined variable: y".to_string()));
}

#[test]
fn run_ast_integer_type_error() {
    let engine = Engine::new();
    assert_eq!(engine.run_ast("x = \"a\" + 1").err(), Some("Type error in binary operation".to_string()));
}

#[test]
fn run_ast_scope_keeps_partial_work_on_error() {
    let engine = Engine::new();
    let mut scope: Scope = Scope::new();
    scope.set_variable("k".to_string(), dbl(1.0));
    let r = engine.run_ast_scope("x = k\ny = zz", &mut scope);
    assert_eq!(r.err(), Some("Undefined variable: zz".to_string()));
    assert_eq!(scope.get_variable("x"), Some(dbl(1.0)));
}

#[test]
fn run_ast_scope_method_call_on_library() {
    let engine = Engine::new();
    let mut scope: Scope = Scope::new();
    scope.register_library("math", Math);
    let vars = engine.run_ast_scope("x = math.abs(-3)", &mut scope).unwrap();
    assert_eq!(*vars.get("x").unwrap(), Expression::Atom(Atom::Double(Float::Abs(Box::new(Float::Bits((-3.0f64).to_bits()))))));
}

#[test]
fn parse_pieces() {
    assert_eq!(parse_binary_operator("== 1"), Ok((" 1".to_string(), BinaryOperation::Equal)));
    assert_eq!(parse_binary_operator("x"), Err(ParseError::Error));
    let (rest, e) = parse_binary_operation("a * b;").unwrap();
    assert_eq!(rest, ";");
    assert_eq!(
        e,
        Expression::BinaryOperation(
            BinaryOperation::Times,
            Box::new(Expression::Atom(Atom::Variable("a".to_string()))),
            Box::new(Expression::Atom(Atom::Variable("b".to_string())))
        )
    );
    assert_eq!(parse_expression("1e"), Err(ParseError::Failure(0)));
    let (rest, st) = parse_statement("v = true").unwrap();
    assert_eq!(rest, "");
    assert_eq!(format!("{:?}", st), "VariableDeclaration(\"v\", Atom(Boolean(true)))");
    let (rest, stmts) = parse_program("a = 1\n b = 2\n!").unwrap();
    assert_eq!(stmts.len(), 2);
    assert_eq!(rest, "\n!");
}

#[test]
fn float_literals_as_nom_reads_them() {
    assert_eq!(parse_expression("1.5e3;"), Ok((";".to_string(), dbl(1500.0))));
    assert_eq!(parse_expression("-.5x"), Ok(("x".to_string(), dbl(-0.5))));
    assert_eq!(parse_expression("+7"), Ok(("".to_string(), dbl(7.0))));
    assert_eq!(parse_expression("2.e1"), Ok(("".to_string(), dbl(20.0))));
    assert_eq!(parse_expression("NaN"), Ok(("".to_string(), dbl(f64::NAN))));
    assert_eq!(parse_expression("infinity"), Ok(("inity".to_string(), dbl(f64::INFINITY))));
    assert_eq!(parse_expression("1E"), Err(ParseError::Failure(0)));
    assert_eq!(parse_expression("3e+"), Err(ParseError::Failure(0)));
}

#[test]
fn run_ast_gives_the_same_each_time() {
    let engine = Engine::new();
    let code = "f(p) => [p, p]\n[u, v] = f(4)\nw = u";
    let one = engine.run_ast(code).unwrap();
    let two = engine.run_ast(code).unwrap();
    assert_eq!(one.get("w"), two.get("w"));
    assert_eq!(*one.get("w").unwrap(), dbl(4.0));
    assert_eq!(one.len(), two.len());
}
