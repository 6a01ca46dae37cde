use monkeyball::ast::{Identifier, LetStatement, Program, ReturnStatement, Statement};
use monkeyball::lexer::Lexer;
use monkeyball::parser::Parser;

fn parse(input: &str) -> (Vec<String>, Vec<String>) {
    let (program, errors) = Parser::new(Lexer::new(input)).parse_program();
    let statements = program
        .get_statements()
        .iter()
        .map(|statement| match statement {
            Statement::LetStatement(LetStatement { name }) => format!("let {}", name.value),
            Statement::ReturnStatement(ReturnStatement {}) => "return".to_string(),
        })
        .collect();
    (statements, errors)
}

#[test]
fn test_parse_program_errors() {
    let input = "let x 5;
let = 10;
let 838383;
";
    let lexer = Lexer::new(input);
    let (program, errors) = Parser::new(lexer).parse_program();

    assert!(program.get_statements().is_empty());

    assert_eq!(
        errors,
        [
            "expected next token to be Assign, got Integer instead",
            "expected next token to be Identifier, got Assign instead",
            "expected next token to be Identifier, got Integer instead",
        ]
    );
}

#[test]
fn test_let_statements() {
    let input = "let x = 5;
let y = 10;
let foobar = 838383;
";
    let lexer = Lexer::new(input);
    let (program, errors) = Parser::new(lexer).parse_program();

    assert!(errors.is_empty());

    let ids: Vec<String> = program
        .get_statements()
        .iter()
        .filter_map(|s| match s {
            Statement::LetStatement(LetStatement { name }) => Some(name),
            statement => panic!("Expected a LetStatement, got {:?}", statement),
        })
        .map(|i| i.value.to_string())
        .collect();

    assert_eq!(ids, ["x", "y", "foobar"]);
}

#[test]
fn test_return_statements() {
    let input = "return 5;
return 10;
return 993322;
";
    let lexer = Lexer::new(input);
    let (program, errors) = Parser::new(lexer).parse_program();

    assert!(errors.is_empty());

    let todo: Vec<()> = program
        .get_statements()
        .iter()
        .filter_map(|s| match s {
            Statement::ReturnStatement(ReturnStatement {}) => Some(()),
            statement => panic!("Expected a ReturnStatement, got {:?}", statement),
        })
        .collect();

    assert_eq!(todo.len(), 3);
}

#[test]
fn empty_input_is_an_empty_program() {
    assert_eq!(parse(""), (vec![], vec![]));
    assert_eq!(parse(" \n\t "), (vec![], vec![]));
}

#[test]
fn statements_keep_source_order() {
    let (statements, errors) = parse("return 1; let a = 2; return 3; let b = 4;");
    assert_eq!(statements, ["return", "let a", "return", "let b"]);
    assert!(errors.is_empty());
}

#[test]
fn the_value_is_read_over_up_to_the_semicolon() {
    let (statements, errors) = parse("let x = let y = 1 + 2 return; let z = 3;");
    assert_eq!(statements, ["let x", "let z"]);
    assert!(errors.is_empty());
    let (statements, errors) = parse("return let x = 1; return;");
    assert_eq!(statements, ["return", "return"]);
    assert!(errors.is_empty());
}

#[test]
fn tokens_that_start_no_statement_are_passed_over_silently() {
    let (statements, errors) = parse("5 + 5; foo (bar) { } @ == != let x = 1; , ;");
    assert_eq!(statements, ["let x"]);
    assert!(errors.is_empty());
}

#[test]
fn a_failed_attempt_drops_one_token_only() {
    let (statements, errors) = parse("let let x = 1;");
    assert_eq!(statements, ["let x"]);
    assert_eq!(errors, ["expected next token to be Identifier, got Let instead"]);
    let (statements, errors) = parse("let x return 1;");
    assert_eq!(statements, ["return"]);
    assert_eq!(errors, ["expected next token to be Assign, got Return instead"]);
}

#[test]
fn a_keyword_is_no_name() {
    let (statements, errors) = parse("let fn = 1;");
    assert!(statements.is_empty());
    assert_eq!(errors, ["expected next token to be Identifier, got Function instead"]);
}

#[test]
fn diagnostics_name_the_kind_that_was_found() {
    let cases = [
        ("let", "expected next token to be Identifier, got Eof instead"),
        ("let x", "expected next token to be Assign, got Eof instead"),
        ("let x == 1;", "expected next token to be Assign, got Eq instead"),
        ("let x;", "expected next token to be Assign, got Semicolon instead"),
        ("let @", "expected next token to be Identifier, got Illegal instead"),
        ("let true", "expected next token to be Identifier, got True instead"),
        ("let (", "expected next token to be Identifier, got LParen instead"),
    ];
    for (input, expected) in cases {
        let (statements, errors) = parse(input);
        assert!(statements.is_empty());
        assert_eq!(errors, [expected]);
    }
}

#[test]
fn a_statement_without_semicolon_ends_with_the_input() {
    let (statements, errors) = parse("let x = 5");
    assert_eq!(statements, ["let x"]);
    assert!(errors.is_empty());
    let (statements, errors) = parse("return");
    assert_eq!(statements, ["return"]);
    assert!(errors.is_empty());
    let (statements, errors) = parse("let a = 1; return 2 + 3  ");
    assert_eq!(statements, ["let a", "return"]);
    assert!(errors.is_empty());
    let (statements, errors) = parse("let x =");
    assert_eq!(statements, ["let x"]);
    assert!(errors.is_empty());
}

#[test]
fn parsing_stops_at_the_first_eof_between_statements() {
    let (statements, errors) = parse("let a = 1; \0 let b = 2;");
    assert_eq!(statements, ["let a"]);
    assert!(errors.is_empty());
}

#[test]
fn a_value_runs_over_a_nul_byte_to_its_semicolon() {
    let (statements, errors) = parse("return \0 let x = 1; let y = 2;");
    assert_eq!(statements, ["return", "let y"]);
    assert!(errors.is_empty());
    let (statements, errors) = parse("return \0\0");
    assert_eq!(statements, ["return"]);
    assert!(errors.is_empty());
    let (statements, errors) = parse("return \0\0 ");
    assert_eq!(statements, ["return"]);
    assert!(errors.is_empty());
}

#[test]
fn a_parser_starts_where_the_lexer_stands() {
    let mut lexer = Lexer::new("let x = 1; let y = 2;");
    for _ in 0..5 {
        lexer.next_token();
    }
    let (program, errors) = Parser::new(lexer).parse_program();
    assert!(errors.is_empty());
    let names: Vec<&str> = program
        .get_statements()
        .iter()
        .map(|statement| match statement {
            Statement::LetStatement(found) => found.name.value.as_str(),
            Statement::ReturnStatement(_) => "",
        })
        .collect();
    assert_eq!(names, ["y"]);
}

#[test]
fn names_are_never_empty() {
    let (program, _) =
        Parser::new(Lexer::new("let a = 1; let _ = 2; let Zz = 3")).parse_program();
    assert_eq!(program.get_statements().len(), 3);
    for statement in program.get_statements() {
        match statement {
            Statement::LetStatement(found) => assert!(!found.name.value.is_empty()),
            Statement::ReturnStatement(_) => panic!("a let statement was expected"),
        }
    }
}

#[test]
fn program_keeps_statements_in_the_order_added() {
    let mut program = Program::new();
    assert!(program.get_statements().is_empty());
    program.add_statement(Statement::ReturnStatement(ReturnStatement {}));
    program.add_statement(Statement::LetStatement(LetStatement {
        name: Identifier { value: "x".to_string() },
    }));
    assert_eq!(program.get_statements().len(), 2);
    assert!(matches!(program.get_statements()[0], Statement::ReturnStatement(_)));
    match &program.get_statements()[1] {
        Statement::LetStatement(found) => assert_eq!(found.name.value, "x"),
        Statement::ReturnStatement(_) => panic!("a let statement was expected"),
    }
}
