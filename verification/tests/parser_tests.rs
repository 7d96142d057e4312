use rinonguci_script::ast::expression::node::Identifier;
use rinonguci_script::ast::expression::ExpressionType;
use rinonguci_script::ast::statement::node::LetStatement;
use rinonguci_script::ast::statement::StatementType;
use rinonguci_script::ast::{Program, TNode};
use rinonguci_script::lexer::Lexer;
use rinonguci_script::parser::Parser;
use rinonguci_script::token::{Precedence, Token};

fn check_parser_errors(p: &Parser) -> Result<(), String> {
    let errors = p.errors();

    if errors.is_empty() {
        return Ok(());
    }

    let mut error_msg = format!("\nParser has {} errors\n", errors.len());
    for msg in errors {
        error_msg.push_str(&format!("Parser error: {}\n", msg));
    }
    Err(error_msg)
}

fn parse(input: &str) -> Program {
    let l = Lexer::new(input.to_string());
    let mut p = Parser::new(l);
    let program = p.parse_program();
    match check_parser_errors(&p) {
        Ok(_) => {}
        Err(msg) => panic!("{:?}", msg),
    }
    program
}

fn parse_with_errors(input: &str) -> (Program, Vec<String>) {
    let l = Lexer::new(input.to_string());
    let mut p = Parser::new(l);
    let program = p.parse_program();
    let errors = p.errors();
    (program, errors)
}

fn test_let_statement(stmt: &Box<StatementType>, name: &str, _value: &Option<i64>) -> bool {
    let let_stmt = stmt.as_let().unwrap();

    if let_stmt.name != name {
        return false;
    }

    true
}

#[test]
fn parser_test_let_statements() {
    let input = "
    let x = 1;
    let y = 10;
    let foobar = 838383;
    ";
    let program = parse(input);

    assert_eq!(
        program.statements.len(),
        3,
        "program.Statements does not contain 3 statements. got={}",
        program.statements.len()
    );

    let tests = vec![("x", Some(1)), ("y", Some(10)), ("foobar", Some(838383))];

    for (i, tt) in tests.iter().enumerate() {
        let stmt = &program.statements[i];
        assert_eq!(
            test_let_statement(stmt, tt.0, &tt.1),
            true,
            "test_let_statement failed"
        );
    }
}

#[test]
fn parser_test_string() {
    let program = Program {
        statements: vec![Box::new(StatementType::Let(LetStatement {
            token: Token::LET,
            name: "myVar".to_string(),
            value: Box::new(ExpressionType::Identifier(Identifier {
                token: Token::IDENT("anotherVar".to_string()),
            })),
        }))],
    };

    let expected_output = "let myVar = anotherVar;";
    assert_eq!(program.string(), expected_output, "program.String() wrong");
}

#[test]
fn parser_test_return_statements() {
    let input = "
    return 5;
    return 10;
    return 993322;
    ";
    let program = parse(input);

    assert_eq!(
        program.statements.len(),
        3,
        "program.Statements does not contain 3 statements. got={}",
        program.statements.len()
    );

    for stmt in program.statements {
        assert_eq!(
            stmt.token_literal(),
            "return".to_string(),
            "stmt.TokenLiteral not 'return'. got={}",
            stmt.token_literal()
        );
    }
}

#[test]
fn parser_test_identifier_expression() {
    let input = "foobar;";
    let program = parse(input);
    assert_eq!(
        program.statements.len(),
        1,
        "program has not enough statements"
    );

    let stmt = program.statements[0].as_expression().unwrap();

    assert_eq!(
        stmt.expression.token_literal(),
        "foobar",
        "ident.Value not 'foobar'"
    );
}

#[test]
fn parser_test_integer_literal_expression() {
    let input = "5;";
    let program = parse(input);
    assert_eq!(
        program.statements.len(),
        1,
        "program has not enough statements"
    );

    let stmt = program.statements[0].as_expression().unwrap();

    assert_eq!(
        stmt.expression.token_literal(),
        "5",
        "ident.Value not '5'"
    );
}

#[test]
fn parser_test_parsing_prefix_expressions() {
    let prefix_tests = vec![("!5;", "!", 5), ("-15;", "-", 15)];

    for (input, operator, integer_value) in prefix_tests {
        let program = parse(input);

        assert_eq!(
            program.statements.len(),
            1,
            "program.Statements does not contain 1 statement"
        );

        let stmt = program.statements[0].as_expression().unwrap();
        let exp = stmt.expression.as_prefix().unwrap();

        assert_eq!(
            exp.operator.to_string(),
            operator,
            "exp.Operator is not '{}'. got={}",
            operator,
            exp.operator.to_string()
        );

        assert_eq!(
            exp.right.token_literal(),
            integer_value.to_string(),
            "exp.Right.Value is not '{}'. got={}",
            integer_value,
            exp.right.token_literal()
        );
    }
}

#[test]
fn parser_test_parsing_infix_expressions() {
    let infix_tests = vec![("5 + 5 + 9;", 5, "+", 5)];

    for (input, left_value, operator, right_value) in infix_tests {
        let program = parse(input);

        assert_eq!(
            program.statements.len(),
            1,
            "program.Statements does not contain 1 statement"
        );

        let stmt = program.statements[0].as_expression().unwrap();
        let outer = stmt.expression.as_infix().unwrap();
        assert_eq!(outer.operator.to_string(), operator);
        assert_eq!(outer.right.token_literal(), "9");

        // Operators of one strength group to the left: the sum of the first
        // two operands is the left operand of the second sum.
        let exp = outer.left.as_infix().unwrap();

        assert_eq!(
            exp.operator.to_string(),
            operator,
            "exp.Operator is not '{}'. got={}",
            operator,
            exp.operator.to_string()
        );

        assert_eq!(
            exp.left.token_literal(),
            left_value.to_string(),
            "exp.Left.Value is not '{}'. got={}",
            left_value,
            exp.left.token_literal()
        );

        assert_eq!(
            exp.right.token_literal(),
            right_value.to_string(),
            "exp.Right.Value is not '{}'. got={}",
            right_value,
            exp.right.token_literal()
        );
    }
}

#[test]
fn parser_test_operator_precedence_parsing() {
    let tests = vec![
        ("-a * b", "((-a) * b)"),
        ("!-a", "(!(-a))"),
        ("a + b + c", "((a + b) + c)"),
        ("a + b - c", "((a + b) - c)"),
        ("a * b * c", "((a * b) * c)"),
        ("a * b / c", "((a * b) / c)"),
        ("a + b / c", "(a + (b / c))"),
        ("a + b * c + d / e - f", "(((a + (b * c)) + (d / e)) - f)"),
        ("3 + 4; -5 * 5", "(3 + 4)((-5) * 5)"),
        ("5 > 4 == 3 < 4", "((5 > 4) == (3 < 4))"),
        ("5 < 4 != 3 > 4", "((5 < 4) != (3 > 4))"),
        (
            "3 + 4 * 5 == 3 * 1 + 4 * 5",
            "((3 + (4 * 5)) == ((3 * 1) + (4 * 5)))",
        ),
    ];

    for (input, expected) in tests {
        let program = parse(input);
        let actual = program.string();

        assert_eq!(actual, expected, "expected={}, got={}", expected, actual);
    }
}

#[test]
fn test_test_let_statements() {
    let input = "
    let x = 1;
    let y = 10;
    let foobar = 838383;
    ";
    let l = Lexer::new(input.to_string());
    let mut p = Parser::new(l);
    let program = p.parse_program();

    assert_eq!(
        program.statements.len(),
        3,
        "program.Statements does not contain 3 statements. got={}",
        program.statements.len()
    );

    let tests = vec![("x", Some(1)), ("y", Some(10)), ("foobar", Some(838383))];

    for (i, tt) in tests.iter().enumerate() {
        let stmt = &program.statements[i];
        let stmt = stmt.as_let().unwrap();

        assert_eq!(
            stmt.name, tt.0,
            "stmt.Name.Value not '{}'. got={}",
            tt.0, stmt.name,
        );
        assert_eq!(stmt.value.token_literal(), tt.1.unwrap().to_string());
    }
}

#[test]
fn test_test_string() {
    let program = Program {
        statements: vec![Box::new(StatementType::Let(LetStatement {
            token: Token::LET,
            name: "myVar".to_string(),
            value: Box::new(ExpressionType::Identifier(Identifier {
                token: Token::IDENT("anotherVar".to_string()),
            })),
        }))],
    };

    let expected_output = "let myVar = anotherVar;";
    assert_eq!(program.string(), expected_output, "program.String() wrong");
}

#[test]
fn test_test_return_statements() {
    let input = "
    return 5;
    return 10;
    return 993322;
    ";
    let l = Lexer::new(input.to_string());
    let mut p = Parser::new(l);
    let program = p.parse_program();

    assert_eq!(
        program.statements.len(),
        3,
        "program.Statements does not contain 3 statements. got={}",
        program.statements.len()
    );

    for stmt in program.statements {
        let stmt = stmt.as_return().unwrap();
        assert_eq!(
            stmt.token_literal(),
            "return",
            "stmt.TokenLiteral not 'return', got={}",
            stmt.token_literal()
        );
    }
}

#[test]
fn test_test_identifier_expression() {
    let input = "foobar;";
    let l = Lexer::new(input.to_string());
    let mut p = Parser::new(l);
    let program = p.parse_program();

    assert_eq!(
        program.statements.len(),
        1,
        "program has not enough statements"
    );

    let stmt = program.statements[0]
        .as_expression()
        .unwrap()
        .expression
        .as_ref()
        .token_literal();

    assert_eq!(stmt, "foobar", "ident.Value not 'foobar'");
}

#[test]
fn test_test_integer_literal_expression() {
    let input = "5;";
    let l = Lexer::new(input.to_string());
    let mut p = Parser::new(l);
    let program = p.parse_program();

    assert_eq!(
        program.statements.len(),
        1,
        "program has not enough statements"
    );

    let stmt = program.statements[0].as_expression().unwrap();

    assert_eq!(
        stmt.expression.as_ref().token_literal(),
        "5",
        "ident.Value not '5'"
    );
}

#[test]
fn test_test_parsing_prefix_expressions() {
    let prefix_tests = vec![("!5;", "!", 5), ("-15;", "-", 15)];

    for (input, operator, integer_value) in prefix_tests {
        let l = Lexer::new(input.to_string());
        let mut p = Parser::new(l);
        let program = p.parse_program();

        assert_eq!(
            program.statements.len(),
            1,
            "program.Statements does not contain 1 statement"
        );

        let stmt = &program.statements[0].as_expression().unwrap();
        let exp = stmt.expression.as_ref().as_prefix().unwrap();

        assert_eq!(
            exp.operator.to_string(),
            operator,
            "exp.Operator is not '{}'. got={}",
            operator,
            exp.operator.to_string()
        );

        assert_eq!(
            exp.right.as_ref().token_literal(),
            integer_value.to_string(),
            "exp.Right.Value is not '{}'. got={}",
            integer_value,
            exp.right.as_ref().token_literal()
        );
    }
}

#[test]
fn test_test_parsing_infix_expressions() {
    let infix_tests = vec![
        ("5 + 6", 5, "+", 6),
        ("5 - 5;", 5, "-", 5),
        ("5 * 5;", 5, "*", 5),
        ("5 / 5;", 5, "/", 5),
        ("5 > 5;", 5, ">", 5),
        ("5 < 5;", 5, "<", 5),
        ("5 == 5;", 5, "==", 5),
        ("5 != 5;", 5, "!=", 5),
    ];

    for (input, left_value, operator, right_value) in infix_tests {
        let l = Lexer::new(input.to_string());
        let mut p = Parser::new(l);
        let program = p.parse_program();

        assert_eq!(
            program.statements.len(),
            1,
            "program.Statements does not contain 1 statement"
        );

        let stmt = program.statements[0].as_expression().unwrap();
        let exp = stmt.expression.as_ref().as_infix().unwrap();

        assert_eq!(
            exp.operator.to_string(),
            operator,
            "exp.Operator is not '{}'. got={}",
            operator,
            exp.operator.to_string()
        );

        assert_eq!(
            exp.left.as_ref().token_literal(),
            left_value.to_string(),
            "exp.Left.Value is not '{}'. got={}",
            left_value,
            exp.left.as_ref().token_literal()
        );

        assert_eq!(
            exp.right.as_ref().token_literal(),
            right_value.to_string(),
            "exp.Right.Value is not '{}'. got={}",
            right_value,
            exp.right.as_ref().token_literal()
        );
    }
}

#[test]
fn test_test_operator_precedence_parsing() {
    let tests = vec![
        ("a + add(b * c) + d", "((a + add((b * c))) + d)"),
        (
            "add(a, b, 1, 2 * 3, 4 + 5, add(6, 7 * 8))",
            "add(a, b, 1, (2 * 3), (4 + 5), add(6, (7 * 8)))",
        ),
        (
            "add(a + b + c * d / f + g)",
            "add((((a + b) + ((c * d) / f)) + g))",
        ),
        ("1 + (2 + 3) + 4", "((1 + (2 + 3)) + 4)"),
        ("(5 + 5) * 2", "((5 + 5) * 2)"),
        ("2 / (5 + 5)", "(2 / (5 + 5))"),
        ("-(5 + 5)", "(-(5 + 5))"),
        ("!(true == true)", "(!(true == true))"),
        ("true", "true"),
        ("false", "false"),
        ("3 > 5 == false", "((3 > 5) == false)"),
        ("3 < 5 == true", "((3 < 5) == true)"),
        ("-a * b", "((-a) * b)"),
        ("!-a", "(!(-a))"),
        ("a + b + c", "((a + b) + c)"),
        ("a + b * c", "(a + (b * c))"),
        ("a * b * c", "((a * b) * c)"),
        ("a * b / c", "((a * b) / c)"),
        ("a + b / c", "(a + (b / c))"),
        ("a + b * c + d / e - f", "(((a + (b * c)) + (d / e)) - f)"),
        ("3 + 4; -5 * 5", "(3 + 4)((-5) * 5)"),
        ("5 > 4 == 3 < 4", "((5 > 4) == (3 < 4))"),
        ("5 < 4 != 3 > 4", "((5 < 4) != (3 > 4))"),
        (
            "3 + 4 * 5 == 3 * 1 + 4 * 5",
            "((3 + (4 * 5)) == ((3 * 1) + (4 * 5)))",
        ),
    ];

    for (input, expected) in tests {
        let l = Lexer::new(input.to_string());
        let mut p = Parser::new(l);
        let program = p.parse_program();

        let actual = program.string();

        assert_eq!(actual, expected, "expected={}, got={}", expected, actual);
    }
}

#[test]
fn test_if_expression() {
    let input = "if (x < y) { x }";
    let l = Lexer::new(input.to_string());
    let mut p = Parser::new(l);
    let program = p.parse_program();

    assert_eq!(
        program.statements.len(),
        1,
        "program.Body does not contain 1 statement"
    );

    let stmt = program.statements[0].as_expression().unwrap();
    let exp = stmt.expression.as_ref().as_if().unwrap();

    assert_eq!(
        exp.condition.string(),
        "(x < y)",
        "exp.Condition is not 'x < y'. got={}",
        exp.condition.string()
    );

    assert_eq!(
        exp.consequence.as_block().unwrap().statements.len(),
        1,
        "consequence is not 1 statements. got={}",
        exp.consequence.as_block().unwrap().statements.len()
    );

    let consequence = exp.consequence.as_block().unwrap().statements[0]
        .as_expression()
        .unwrap();

    assert_eq!(
        consequence.expression.as_ref().token_literal(),
        "x",
        "consequence is not 'x'. got={}",
        consequence.expression.as_ref().token_literal()
    );
    assert!(exp.alternative.is_none());
}

#[test]
fn test_fn_literal_expression() {
    let input = "fn(x, y) { x + y; }";
    let l = Lexer::new(input.to_string());
    let mut p = Parser::new(l);
    let program = p.parse_program();

    assert_eq!(
        program.statements.len(),
        1,
        "program.Body does not contain 1 statement"
    );

    let stmt = program.statements[0].as_expression().unwrap();
    let exp = stmt.expression.as_ref().as_fn().unwrap();

    assert_eq!(
        exp.parameters.len(),
        2,
        "function literal parameters wrong. want 2, got={}",
        exp.parameters.len()
    );

    assert_eq!(
        exp.parameters[0].as_ref().token_literal(),
        "x",
        "parameter is not 'x'. got={}",
        exp.parameters[0].as_ref().token_literal()
    );

    assert_eq!(
        exp.parameters[1].as_ref().token_literal(),
        "y",
        "parameter is not 'y'. got={}",
        exp.parameters[1].as_ref().token_literal()
    );

    assert_eq!(
        exp.body.as_block().unwrap().statements.len(),
        1,
        "body is not 1 statements. got={}",
        exp.body.as_block().unwrap().statements.len()
    );

    let body = exp.body.as_block().unwrap().statements[0]
        .as_expression()
        .unwrap();

    assert_eq!(
        body.expression.as_ref().string(),
        "(x + y)",
        "body is not 'x + y'. got={}",
        body.expression.as_ref().string()
    );
}

#[test]
fn test_function_parameter_parsing() {
    let tests = vec![
        ("fn() {};", vec![]),
        ("fn(x) {};", vec!["x"]),
        ("fn(x, y, z) {};", vec!["x", "y", "z"]),
    ];

    for (input, expected_params) in tests {
        let l = Lexer::new(input.to_string());
        let mut p = Parser::new(l);
        let program = p.parse_program();

        let stmt = program.statements[0].as_expression().unwrap();
        let function = stmt.expression.as_ref().as_fn().unwrap();

        assert_eq!(
            function.parameters.len(),
            expected_params.len(),
            "length parameters wrong. want {}, got={}",
            expected_params.len(),
            function.parameters.len()
        );

        for (i, ident) in expected_params.iter().enumerate() {
            let param = function.parameters[i].as_ref();
            assert_eq!(
                param.token_literal(),
                ident.to_string(),
                "parameter is not '{}'. got={}",
                ident,
                param.token_literal()
            );
        }
    }
}

#[test]
fn test_call_expression_parsing() {
    let input = "add(1, 2 * 3, 4 + 5);";
    let l = Lexer::new(input.to_string());
    let mut p = Parser::new(l);
    let program = p.parse_program();

    assert_eq!(
        program.statements.len(),
        1,
        "program.Statements does not contain 1 statement"
    );

    let stmt = program.statements[0].as_expression().unwrap();
    let exp = stmt.expression.as_ref().as_call().unwrap();

    assert_eq!(
        exp.function.as_ref().token_literal(),
        "add",
        "function is not 'add'. got={}",
        exp.function.as_ref().token_literal()
    );

    assert_eq!(
        exp.arguments.len(),
        3,
        "wrong length of arguments. got={}",
        exp.arguments.len()
    );

    assert_eq!(
        exp.arguments[0].as_ref().string(),
        "1",
        "argument is not '1'. got={}",
        exp.arguments[0].as_ref().string()
    );

    assert_eq!(
        exp.arguments[1].as_ref().string(),
        "(2 * 3)",
        "argument is not '2 * 3'. got={}",
        exp.arguments[1].as_ref().string()
    );

    assert_eq!(
        exp.arguments[2].as_ref().string(),
        "(4 + 5)",
        "argument is not '4 + 5'. got={}",
        exp.arguments[2].as_ref().string()
    );
}

#[test]
fn if_else_expression_parses_both_blocks() {
    let program = parse("if (x < y) { x } else { y; z }");
    assert_eq!(program.statements.len(), 1);
    let stmt = program.statements[0].as_expression().unwrap();
    let exp = stmt.expression.as_if().unwrap();
    assert_eq!(exp.condition.string(), "(x < y)");
    assert_eq!(exp.consequence.string(), "{x}");
    let alternative = exp.alternative.as_ref().unwrap();
    assert_eq!(alternative.as_block().unwrap().statements.len(), 2);
    assert_eq!(alternative.string(), "{y}{z}");
    assert_eq!(exp.token_literal(), "if");
    assert_eq!(program.string(), "if (x < y) { {x} }else { {y}{z}");
    assert_eq!(parse("if (a) { b }").string(), "if a { {b} }");
}

#[test]
fn function_literal_text() {
    let program = parse("fn(x, y) { x + y; }");
    assert_eq!(program.string(), "fn(x,y){(x + y)}");
    let stmt = program.statements[0].as_expression().unwrap();
    assert_eq!(stmt.expression.token_literal(), "fn");
    assert_eq!(parse("fn() { }").string(), "fn()");
}

#[test]
fn string_literal_expression() {
    let program = parse("\"hello world\";");
    assert_eq!(program.statements.len(), 1);
    let stmt = program.statements[0].as_expression().unwrap();
    let literal = stmt.expression.as_string_literal().unwrap();
    assert_eq!(literal.token, Token::STRING("hello world".to_string()));
    assert_eq!(literal.string(), "hello world");
}

#[test]
fn boolean_expression() {
    let program = parse("true; false");
    assert_eq!(program.statements.len(), 2);
    let first = program.statements[0].as_expression().unwrap();
    assert_eq!(first.expression.as_boolean().unwrap().token, Token::TRUE);
    let second = program.statements[1].as_expression().unwrap();
    assert_eq!(second.expression.as_boolean().unwrap().token, Token::FALSE);
}

#[test]
fn binding_without_keyword() {
    let program = parse("let a = 5; a = 10;");
    assert_eq!(program.statements.len(), 2);
    let first = program.statements[0].as_let().unwrap();
    assert_eq!(first.token, Token::LET);
    assert_eq!(first.name, "a");
    let second = program.statements[1].as_let().unwrap();
    assert_eq!(second.token, Token::ASSIGN);
    assert_eq!(second.name, "a");
    assert_eq!(second.value.string(), "10");
    assert_eq!(program.string(), "let a = 5;a = 10;");
    assert_eq!(second.token_literal(), "=");
    assert_eq!(first.token_literal(), "let");
}

#[test]
fn statement_terminator_is_optional() {
    assert_eq!(parse("let a = 1").statements.len(), 1);
    assert_eq!(parse("return 1").statements.len(), 1);
    assert_eq!(parse("1").statements.len(), 1);
    assert_eq!(parse("").statements.len(), 0);
    assert_eq!(parse("   \n\t ").statements.len(), 0);
}

#[test]
fn missing_token_is_recorded() {
    let (program, errors) = parse_with_errors("let x 5;");
    assert_eq!(errors, vec!["expected next token to be =, got 5 instead".to_string()]);
    assert_eq!(program.statements.len(), 1);
    assert_eq!(program.string(), "5");

    let (_, errors) = parse_with_errors("let = 5;");
    assert_eq!(errors[0], "expected next token to be , got = instead");

    let (_, errors) = parse_with_errors("(1 + 2");
    assert_eq!(errors, vec!["expected next token to be ), got EOF instead".to_string()]);

    let (_, errors) = parse_with_errors("if x { 1 }");
    assert_eq!(errors[0], "expected next token to be (, got x instead");

    let (_, errors) = parse_with_errors("fn x { 1 }");
    assert_eq!(errors[0], "expected next token to be (, got x instead");

    let (_, errors) = parse_with_errors("add(1, 2");
    assert_eq!(errors, vec!["expected next token to be ), got EOF instead".to_string()]);
}

#[test]
fn token_without_prefix_rule_is_recorded() {
    let (program, errors) = parse_with_errors("+;");
    assert_eq!(errors, vec!["no prefix parse function for + found".to_string()]);
    assert_eq!(program.statements.len(), 1);
    assert_eq!(program.string(), "EOF");

    let (program, errors) = parse_with_errors("1 = 2");
    assert_eq!(errors, vec!["no prefix parse function for = found".to_string()]);
    assert_eq!(program.string(), "1EOF2");

    let (_, errors) = parse_with_errors("@");
    assert_eq!(errors, vec!["no prefix parse function for @ found".to_string()]);

    let (_, errors) = parse_with_errors("1 + ");
    assert_eq!(errors, vec!["no prefix parse function for EOF found".to_string()]);
}

#[test]
fn parsing_goes_on_after_an_error() {
    let (program, errors) = parse_with_errors("let x 5; let y = 10; let 7; y");
    assert_eq!(errors.len(), 2);
    assert_eq!(errors[0], "expected next token to be =, got 5 instead");
    assert_eq!(errors[1], "expected next token to be , got 7 instead");
    let texts: Vec<String> = program.statements.iter().map(|s| s.string()).collect();
    assert_eq!(texts, vec!["5", "let y = 10;", "7", "y"]);
}

#[test]
fn no_errors_for_a_well_formed_program() {
    let l = Lexer::new("let f = fn(a, b) { if (a < b) { return a; } else { return b; } }; f(1, 2);".to_string());
    let mut p = Parser::new(l);
    assert!(p.errors().is_empty());
    let program = p.parse_program();
    assert!(p.errors().is_empty());
    assert_eq!(program.statements.len(), 2);
    assert_eq!(program.token_literal(), "Program");
}

#[test]
fn parser_precedence_of_held_tokens() {
    let p = Parser::new(Lexer::new("a * b".to_string()));
    assert_eq!(p.cur_precedence(), Precedence::LOWEST);
    assert_eq!(p.peek_precedence(), Precedence::PRODUCT);
    assert_eq!(p.parse_identifier().string(), "a");
}

#[test]
fn text_is_parsed_back_to_the_same_tree() {
    let inputs = vec![
        "-a * b",
        "a + b * c + d / e - f",
        "add(a, b, 1, 2 * 3, 4 + 5, add(6, 7 * 8))",
        "!(true == true)",
        "let x = 1 + 2 * 3;",
        "return f(x)(y) != !z;",
    ];
    for input in inputs {
        let first = parse(input);
        let second = parse(&first.string());
        assert_eq!(first.statements, second.statements);
        assert_eq!(first.string(), second.string());
    }
}

#[test]
fn prefix_and_infix_operations_are_parenthesised() {
    let program = parse("a + -b * !c");
    let stmt = program.statements[0].as_expression().unwrap();
    let sum = stmt.expression.as_infix().unwrap();
    assert_eq!(sum.string(), "(a + ((-b) * (!c)))");
    let product = sum.right.as_infix().unwrap();
    assert_eq!(product.string(), "((-b) * (!c))");
    assert_eq!(product.left.as_prefix().unwrap().string(), "(-b)");
    assert_eq!(product.right.as_prefix().unwrap().string(), "(!c)");
}

#[test]
fn expression_clone_is_equal() {
    let program = parse("if (a) { fn(x) { x(1, \"s\") } } else { -b }");
    let statement = &program.statements[0];
    let copy = statement.clone();
    assert_eq!(&copy, statement);
    assert_eq!(copy.string(), statement.string());
}

#[test]
fn nodes_of_a_program() {
    let program = parse("1");
    let node = program.to_node();
    assert!(node.as_program().is_some());
    assert!(node.as_statement().is_none());
    assert!(node.as_expression().is_none());
    let program = parse("x");
    let statement = program.statements.into_iter().next().unwrap();
    let node = statement.to_node();
    let statement = node.as_statement().unwrap();
    assert!(statement.as_expression().is_some());
    assert!(statement.as_let().is_none());
    let expression = Box::new(ExpressionType::Identifier(Identifier { token: Token::IDENT("x".to_string()) }));
    let node = expression.to_node();
    assert_eq!(node.as_expression().unwrap().string(), "x");
}

#[test]
fn report_on_parser_errors() {
    let mut p = Parser::new(Lexer::new("let x = 1; x + 2".to_string()));
    p.parse_program();
    assert_eq!(p.check_parser_errors(), Ok(()));

    let mut p = Parser::new(Lexer::new("let x 5; )".to_string()));
    p.parse_program();
    assert_eq!(
        p.check_parser_errors(),
        Err("\nParser has 2 errors\nParser error: expected next token to be =, got 5 instead\nParser error: no prefix parse function for ) found\n".to_string())
    );
}

#[test]
fn program_text_is_parsed_back_to_the_same_program() {
    let inputs = vec![
        "let x = 1; let y = x + 2; y = y * x; return add(x, y)(1) == -z;",
        "let a = f(); a",
        "x = !true; x != false",
        "return 0;",
        "((a))",
    ];
    for input in inputs {
        let first = parse(input);
        let text = first.string();
        let (second, errors) = parse_with_errors(&text);
        assert!(errors.is_empty());
        assert_eq!(first.statements, second.statements);
        assert_eq!(text, second.string());
    }
}

#[test]
fn some_texts_are_not_parsed_back() {
    let first = parse("3 + 4; -5 * 5");
    assert_eq!(first.statements.len(), 2);
    let second = parse(&first.string());
    assert_eq!(second.statements.len(), 1);
    assert!(second.statements[0].as_expression().unwrap().expression.as_call().is_some());
}
