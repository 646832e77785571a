use rhai::genv::ast::engine::Engine;
use rhai::genv::ast::lexer::{tokenize, Token};
use rhai::genv::ast::paser::{parse, parse_binop, parse_expr, parse_primary, BinOp, Expr};
use rhai::genv::ast::vm::VM;

#[test]
fn test_tokenize() {
    let input = "a = 1 + 2;";
    let expected = vec![
        Token::Identifier("a".to_string()),
        Token::Assign,
        Token::Number(1),
        Token::Plus,
        Token::Number(2),
        Token::Semicolon,
    ];
    let result = tokenize(input).unwrap().1;
    assert_eq!(result, expected);
}

#[test]
fn test_parse() {
    let tokens = vec![
        Token::Identifier("a".to_string()),
        Token::Assign,
        Token::Number(1),
        Token::Semicolon,
        Token::Identifier("b".to_string()),
        Token::Assign,
        Token::Identifier("a".to_string()),
        Token::Plus,
        Token::Number(2),
        Token::Semicolon,
    ];

    let expected = vec![
        Expr::Assignment("a".to_string(), Box::new(Expr::Number(1))),
        Expr::Assignment(
            "b".to_string(),
            Box::new(Expr::BinaryOp(
                Box::new(Expr::Variable("a".to_string())),
                BinOp::Add,
                Box::new(Expr::Number(2)),
            )),
        ),
    ];

    let result = parse(&tokens).unwrap();
    assert_eq!(result, expected);
}

#[test]
fn test_evaluate() {
    let mut engine = Engine::new();
    let exprs = vec![
        Expr::Assignment("a".to_string(), Box::new(Expr::Number(1))),
        Expr::Assignment(
            "b".to_string(),
            Box::new(Expr::BinaryOp(
                Box::new(Expr::Variable("a".to_string())),
                BinOp::Add,
                Box::new(Expr::Number(2)),
            )),
        ),
    ];

    engine.evaluate(exprs);
    assert_eq!(engine.get_variable("b"), Some(3));
}

#[test]
fn test_vm() {
    let mut vm = VM::new();
    let script = "a = 1; b = a + 2;";
    vm.execute(script);
    assert_eq!(vm.get_variable("b"), Some(3));
}

#[test]
fn tokenize_all_symbols_and_rest() {
    let (rest, toks) = tokenize("x=10*y-3/z; ?").unwrap();
    assert_eq!(
        toks,
        vec![
            Token::Identifier("x".to_string()),
            Token::Assign,
            Token::Number(10),
            Token::Multiply,
            Token::Identifier("y".to_string()),
            Token::Minus,
            Token::Number(3),
            Token::Divide,
            Token::Identifier("z".to_string()),
            Token::Semicolon,
        ]
    );
    assert_eq!(rest, " ?");
}

#[test]
fn tokenize_empty_input() {
    let (rest, toks) = tokenize("").unwrap();
    assert!(toks.is_empty());
    assert_eq!(rest, "");
}

#[test]
fn parse_missing_semicolon() {
    let tokens = vec![Token::Number(1)];
    assert_eq!(parse(&tokens), Err("Expected semicolon".to_string()));
}

#[test]
fn parse_unexpected_token() {
    let tokens = vec![Token::Plus];
    assert_eq!(parse(&tokens), Err("Expected a number or identifier".to_string()));
}

#[test]
fn parse_unexpected_end() {
    let tokens = vec![Token::Number(1), Token::Plus];
    assert_eq!(parse(&tokens), Err("Unexpected end of input".to_string()));
}

#[test]
fn parse_pieces_advance_position() {
    let tokens = vec![Token::Number(4), Token::Minus, Token::Identifier("q".to_string())];
    let mut pos: usize = 0;
    assert_eq!(parse_primary(&tokens, &mut pos), Ok(Expr::Number(4)));
    assert_eq!(pos, 1);
    assert_eq!(parse_binop(&tokens, &mut pos), Some(BinOp::Sub));
    assert_eq!(pos, 2);
    assert_eq!(parse_binop(&tokens, &mut pos), None);
    assert_eq!(pos, 2);
    let mut pos2: usize = 0;
    assert_eq!(
        parse_expr(&tokens, &mut pos2),
        Ok(Expr::BinaryOp(Box::new(Expr::Number(4)), BinOp::Sub, Box::new(Expr::Variable("q".to_string()))))
    );
    assert_eq!(pos2, 3);
}

#[test]
fn engine_unknown_variable_reads_zero_and_division_truncates() {
    let mut engine = Engine::new();
    engine.evaluate(vec![
        Expr::Assignment("c".to_string(), Box::new(Expr::Variable("nothing".to_string()))),
        Expr::Assignment(
            "d".to_string(),
            Box::new(Expr::BinaryOp(Box::new(Expr::Number(-7)), BinOp::Div, Box::new(Expr::Number(2)))),
        ),
    ]);
    assert_eq!(engine.get_variable("c"), Some(0));
    assert_eq!(engine.get_variable("d"), Some(-3));
    assert_eq!(engine.get_variable("e"), None);
}

#[test]
fn vm_later_assignment_wins() {
    let mut vm = VM::new();
    vm.execute("a = 5; a = a * 3; b = a - 1;");
    assert_eq!(vm.get_variable("a"), Some(15));
    assert_eq!(vm.get_variable("b"), Some(14));
}

#[test]
fn engine_in_pieces_is_engine_at_once() {
    let first = vec![Expr::Assignment("a".to_string(), Box::new(Expr::Number(6)))];
    let second = vec![Expr::Assignment(
        "b".to_string(),
        Box::new(Expr::BinaryOp(Box::new(Expr::Variable("a".to_string())), BinOp::Mul, Box::new(Expr::Number(7)))),
    )];
    let mut pieces = Engine::new();
    pieces.evaluate(first);
    pieces.evaluate(second);
    let mut whole = Engine::new();
    whole.evaluate(vec![
        Expr::Assignment("a".to_string(), Box::new(Expr::Number(6))),
        Expr::Assignment(
            "b".to_string(),
            Box::new(Expr::BinaryOp(Box::new(Expr::Variable("a".to_string())), BinOp::Mul, Box::new(Expr::Number(7)))),
        ),
    ]);
    assert_eq!(pieces.get_variable("b"), Some(42));
    assert_eq!(whole.get_variable("b"), pieces.get_variable("b"));
    assert_eq!(whole.get_variable("a"), pieces.get_variable("a"));
}

#[test]
fn parse_failures_leave_position_where_reading_stopped() {
    let tokens = vec![Token::Identifier("a".to_string()), Token::Assign, Token::Semicolon];
    let mut pos: usize = 7;
    assert_eq!(parse_primary(&tokens, &mut pos), Err("Unexpected end of input".to_string()));
    assert_eq!(pos, 7);
    assert_eq!(parse_binop(&tokens, &mut pos), None);
    assert_eq!(pos, 7);
    let mut pos: usize = 2;
    assert_eq!(parse_primary(&tokens, &mut pos), Err("Expected a number or identifier".to_string()));
    assert_eq!(pos, 2);
    let mut pos: usize = 0;
    assert_eq!(parse_expr(&tokens, &mut pos), Err("Expected a number or identifier".to_string()));
    assert_eq!(pos, 2);
    let short = vec![Token::Number(1), Token::Plus];
    let mut pos: usize = 0;
    assert_eq!(parse_expr(&short, &mut pos), Err("Unexpected end of input".to_string()));
    assert_eq!(pos, 2);
}

fn print(es: &[Expr]) -> Vec<Token> {
    fn one(e: &Expr, out: &mut Vec<Token>) {
        match e {
            Expr::Number(n) => out.push(Token::Number(*n)),
            Expr::Variable(x) => out.push(Token::Identifier(x.clone())),
            Expr::BinaryOp(l, op, r) => {
                one(l, out);
                out.push(match op {
                    BinOp::Add => Token::Plus,
                    BinOp::Sub => Token::Minus,
                    BinOp::Mul => Token::Multiply,
                    BinOp::Div => Token::Divide,
                });
                one(r, out);
            }
            Expr::Assignment(x, v) => {
                out.push(Token::Identifier(x.clone()));
                out.push(Token::Assign);
                one(v, out);
            }
        }
    }
    let mut out = Vec::new();
    for e in es {
        one(e, &mut out);
        out.push(Token::Semicolon);
    }
    out
}

fn dup(t: &Token) -> Token {
    match t {
        Token::Identifier(s) => Token::Identifier(s.clone()),
        Token::Number(n) => Token::Number(*n),
        Token::Plus => Token::Plus,
        Token::Minus => Token::Minus,
        Token::Multiply => Token::Multiply,
        Token::Divide => Token::Divide,
        Token::Assign => Token::Assign,
        Token::Semicolon => Token::Semicolon,
    }
}

#[test]
fn parse_laws_on_a_script() {
    let (_, toks) = tokenize("a = b = 1 + 2; c; x = y * 3;").unwrap();
    let v = parse(&toks).unwrap();
    assert_eq!(v.len(), toks.iter().filter(|t| **t == Token::Semicolon).count());
    assert_eq!(toks.last(), Some(&Token::Semicolon));
    assert_eq!(print(&v), toks);
    let back = parse(&print(&v)).unwrap();
    assert_eq!(back, v);
    let (_, more) = tokenize("d = 4;").unwrap();
    let mut joined: Vec<Token> = toks.iter().map(dup).collect();
    joined.extend(more.iter().map(dup));
    let w = parse(&more).unwrap();
    let all = parse(&joined).unwrap();
    assert_eq!(all.len(), v.len() + w.len());
    assert_eq!(all[v.len()], w[0]);
    let mut bad: Vec<Token> = toks.iter().map(dup).collect();
    bad.push(Token::Plus);
    assert_eq!(parse(&bad), Err("Expected a number or identifier".to_string()));
}

#[test]
fn tokenize_stops_at_an_unknown_character() {
    let (rest, toks) = tokenize("a = 1 \n  # b = 2").unwrap();
    assert_eq!(toks.len(), 3);
    assert_eq!(rest, " \n  # b = 2");
    assert!(rest.trim_start().starts_with('#'));
}

#[test]
fn evaluate_changes_only_assigned_names() {
    let mut engine = Engine::new();
    engine.evaluate(vec![Expr::Assignment("keep".to_string(), Box::new(Expr::Number(5)))]);
    engine.evaluate(vec![Expr::BinaryOp(
        Box::new(Expr::Assignment("p".to_string(), Box::new(Expr::Number(1)))),
        BinOp::Add,
        Box::new(Expr::Assignment("q".to_string(), Box::new(Expr::Number(2)))),
    )]);
    assert_eq!(engine.get_variable("keep"), Some(5));
    assert_eq!(engine.get_variable("p"), Some(1));
    assert_eq!(engine.get_variable("q"), Some(2));
    assert_eq!(engine.get_variable("r"), None);
}

#[test]
fn tokenize_reads_every_fitting_number() {
    let (rest, toks) = tokenize("n = 2147483647;").unwrap();
    assert_eq!(rest, "");
    assert_eq!(toks[2], Token::Number(2147483647));
}
