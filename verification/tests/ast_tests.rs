use minicomp::ast::{Ast, AstErr, Operation, Val};
use minicomp::frontend::{get_ast, FrontendErr};
use minicomp::lexer::{LexErr, Token, TokenStream};

#[test]
fn ast() {
    let s = "
      let x = 1+ 2;
      print x * (5+2);
      let y = x / (3 + 2);
      x + y / 5 * 4;
    ";
    let mut stream = TokenStream::from_str(s).unwrap();
    let ast = Ast::from_stream(&mut stream).unwrap();
    assert_eq!(
        ast.render(),
        "declare x = (1 + 2);\ncall print (x * (5 + 2));\ndeclare y = (x / (3 + 2));\n(x + ((y / 5) * 4));\n"
    )
}

#[test]
fn declaration_without_keyword() {
    let ast = get_ast("x = 5;").unwrap();
    assert_eq!(ast.render(), "declare x = 5;\n");
}

#[test]
fn additive_operators_are_left_associative() {
    let ast = get_ast("1 - 2 - 3;").unwrap();
    assert_eq!(ast.render(), "((1 - 2) - 3);\n");
    let ast = get_ast("1 + 2 - 3 + 4;").unwrap();
    assert_eq!(ast.render(), "(((1 + 2) - 3) + 4);\n");
}

#[test]
fn multiplicative_binds_tighter() {
    let ast = get_ast("1 + 2 * 3;").unwrap();
    assert_eq!(ast.render(), "(1 + (2 * 3));\n");
    let ast = get_ast("2 * (1 + 3);").unwrap();
    assert_eq!(ast.render(), "(2 * (1 + 3));\n");
    let ast = get_ast("8 / 2 % 3;").unwrap();
    assert_eq!(ast.render(), "((8 / 2) % 3);\n");
}

#[test]
fn parse_rejects_malformed_statements() {
    assert_eq!(get_ast("x +;"), Err(FrontendErr::Ast(AstErr::BadToken)));
    assert_eq!(get_ast("(1 + 2;"), Err(FrontendErr::Ast(AstErr::BadToken)));
    assert_eq!(get_ast("1 + 2"), Err(FrontendErr::Ast(AstErr::BadToken)));
    assert_eq!(get_ast("let = 5;"), Err(FrontendErr::Ast(AstErr::BadToken)));
    assert_eq!(get_ast("1 2;"), Err(FrontendErr::Ast(AstErr::BadToken)));
}

#[test]
fn lex_failure_surfaces_through_frontend() {
    assert_eq!(get_ast("x = $5;"), Err(FrontendErr::Lex(LexErr::General)));
}

#[test]
fn numeral_too_large_is_refused() {
    assert_eq!(
        get_ast("x = 99999999999999999999;"),
        Err(FrontendErr::Ast(AstErr::BadToken))
    );
    let ast = get_ast("x = 9223372036854775807;").unwrap();
    assert_eq!(ast.render(), "declare x = 9223372036854775807;\n");
}

#[test]
fn alphanumeric_token_is_a_variable() {
    let ast = get_ast("1x2;").unwrap();
    assert_eq!(ast.render(), "1x2;\n");
}

#[test]
fn val_parse_reads_one_token() {
    let mut s = TokenStream::from_str("42").unwrap();
    assert_eq!(Val::parse(&mut s), Ok(Val::V(42)));
    let mut s = TokenStream::from_str("spam").unwrap();
    assert_eq!(Val::parse(&mut s), Ok(Val::Var("spam".to_string())));
    let mut s = TokenStream::from_str("+").unwrap();
    assert_eq!(Val::parse(&mut s), Err(AstErr::BadToken));
}

#[test]
fn operation_from_token() {
    assert_eq!(Operation::from_token(&Token::Mul), Ok(Operation::Mul));
    assert_eq!(Operation::from_token(&Token::Add), Ok(Operation::Add));
    assert_eq!(Operation::from_token(&Token::Sub), Ok(Operation::Sub));
    assert_eq!(Operation::from_token(&Token::Div), Ok(Operation::Div));
    assert_eq!(Operation::from_token(&Token::Mod), Ok(Operation::Mod));
    assert_eq!(Operation::from_token(&Token::EqEq), Err(AstErr::BadToken));
    assert_eq!(Operation::from_token(&Token::Semi), Err(AstErr::BadToken));
}

#[test]
fn infix_power_levels() {
    assert_eq!(Operation::Mul.infix_power(), (21, 20));
    assert_eq!(Operation::Div.infix_power(), (21, 20));
    assert_eq!(Operation::Mod.infix_power(), (21, 20));
    assert_eq!(Operation::Add.infix_power(), (11, 10));
    assert_eq!(Operation::Sub.infix_power(), (11, 10));
}
