use minilex::scanner::Scanner;
use minilex::tree::{AbstractSyntaxTree, TreeError};
use minilex::tree_types::Expresion;

#[test]
fn test_basic_int() {
    let input = " 5 ";
    let tokens = Scanner::new(input).get_tokens();

    let mut ast = AbstractSyntaxTree::new();
    let result = ast.accept_tokens(&tokens);

    assert!(result.is_ok());

    let statements = ast.get();

    let value = Expresion::Integer(5);
    assert_eq!(value, statements[0]);

    for i in statements.iter() {
        println!("{:?}", i);
    }
}

#[test]
fn unknown_token_is_refused() {
    let input = "int i = 5; @";
    let tokens = Scanner::new(input).get_tokens();

    let mut ast = AbstractSyntaxTree::new();
    let result = ast.accept_tokens(&tokens);

    assert_eq!(result, Err(TreeError::UnknownToken));
    assert!(ast.get().is_empty());
}

#[test]
fn non_integer_tokens_are_skipped() {
    let input = "int i = 10; i = i + 7;";
    let tokens = Scanner::new(input).get_tokens();

    let mut ast = AbstractSyntaxTree::new();
    let result = ast.accept_tokens(&tokens);

    assert!(result.is_ok());
    assert_eq!(ast.get(), &[Expresion::Integer(10), Expresion::Integer(7)]);
}

#[test]
fn accept_twice_replaces_statements() {
    let first = Scanner::new("1 2 3").get_tokens();
    let second = Scanner::new("9").get_tokens();

    let mut ast = AbstractSyntaxTree::new();
    assert!(ast.accept_tokens(&first).is_ok());
    assert_eq!(
        ast.get(),
        &[
            Expresion::Integer(1),
            Expresion::Integer(2),
            Expresion::Integer(3)
        ]
    );

    assert!(ast.accept_tokens(&second).is_ok());
    assert_eq!(ast.get(), &[Expresion::Integer(9)]);
}

#[test]
fn failed_accept_keeps_old_statements() {
    let good = Scanner::new("41").get_tokens();
    let bad = Scanner::new("# 42").get_tokens();

    let mut ast = AbstractSyntaxTree::new();
    assert!(ast.accept_tokens(&good).is_ok());
    assert_eq!(ast.get(), &[Expresion::Integer(41)]);

    assert_eq!(ast.accept_tokens(&bad), Err(TreeError::UnknownToken));
    assert_eq!(ast.get(), &[Expresion::Integer(41)]);
}
