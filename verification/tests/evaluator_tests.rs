use rinonguci_script::ast::expression::node::{Boolean as BooleanNode, IntegerLiteral};
use rinonguci_script::ast::expression::ExpressionType;
use rinonguci_script::ast::Node;
use rinonguci_script::ast::TNode;
use rinonguci_script::evaluator::{
    apply_infix_operator, eval, eval_bang_operator_expression, eval_in,
    eval_integer_infix_expression, eval_statements, evel_boolean_expression, is_truthy,
    unwrap_return_value, MAX_CALL_DEPTH,
};
use rinonguci_script::lexer::Lexer;
use rinonguci_script::object::environment::{Environment, GLOBAL_SCOPE};
use rinonguci_script::object::{
    Boolean, Error, Integer, Null, Object, ObjectType, ReturnValue, StringValue,
};
use rinonguci_script::parser::Parser;
use rinonguci_script::ast::Program;
use rinonguci_script::token::Token;

fn parse(input: &str) -> Program {
    let l = Lexer::new(input.to_string());
    let mut p = Parser::new(l);
    let program = p.parse_program();
    let errors = p.errors();
    if !errors.is_empty() {
        panic!("parse_program() returned an error: {:?}", errors);
    }
    program
}

fn test_eval(input: &str) -> Object {
    let program = parse(input);
    let mut env = Environment::new();
    eval(Box::new(program.to_node()), &mut env)
}

fn test_integer_object(obj: Object, expected: i64) {
    let result = obj.as_integer().unwrap();
    assert_eq!(
        result.value, expected,
        "expected={}, got={}",
        expected, result.value
    );
}

fn test_boolean_object(obj: Object, expected: bool) {
    let result = obj.as_boolean().unwrap();
    assert_eq!(result.value, expected);
}

fn test_null_object(obj: Object) {
    assert_eq!(obj, Object::Null(Null));
}

fn error_message(input: &str) -> String {
    test_eval(input).into_error().expect("not an error object").message
}

#[test]
fn test_eval_integer_expression() {
    let tests = vec![
        ("5", 5),
        ("10", 10),
        ("-5", -5),
        ("-10", -10),
        ("5 + 5 + 5 + 5 - 10", 10),
        ("2 * 2 * 2 * 2 * 2", 32),
        ("-50 + 100 + -50", 0),
        ("5 * 2 + 10", 20),
        ("5 + 2 * 10", 25),
        ("20 + 2 * -10", 0),
        ("50 / 2 * 2 + 10", 60),
        ("2 * (5 + 10)", 30),
        ("3 * 3 * 3 + 10", 37),
        ("3 * (3 * 3) + 10", 37),
        ("(5 + 10 * 2 + 15 / 3) * 2 + -10", 50),
    ];
    for tt in tests {
        let evaluated = test_eval(tt.0);
        test_integer_object(evaluated, tt.1);
    }
}

#[test]
fn test_eval_boolean_expression() {
    let tests = vec![
        ("true", true),
        ("false", false),
        ("1 < 2", true),
        ("1 > 2", false),
        ("1 < 1", false),
        ("1 > 1", false),
        ("1 == 1", true),
        ("1 != 1", false),
        ("1 == 2", false),
        ("1 != 2", true),
        ("true == true", true),
        ("false == false", true),
        ("true == false", false),
        ("true != false", true),
        ("false != true", true),
        ("(1 < 2) == true", true),
        ("(1 < 2) == false", false),
        ("(1 > 2) == true", false),
        ("(1 > 2) == false", true),
    ];
    for tt in tests {
        let evaluated = test_eval(tt.0);
        test_boolean_object(evaluated, tt.1);
    }
}

#[test]
fn test_bang_operator() {
    let tests = vec![
        ("!true", false),
        ("!false", true),
        ("!5", false),
        ("!!true", true),
        ("!!false", false),
        ("!!5", true),
    ];
    for tt in tests {
        let evaluated = test_eval(tt.0);
        test_boolean_object(evaluated, tt.1);
    }
}

#[test]
fn test_if_else_expressions() {
    let tests = vec![
        ("if (true) { 10 }", Object::Integer(Integer { value: 10 })),
        ("if (false) { 10 }", Object::Null(Null)),
        ("if (1) { 10 }", Object::Integer(Integer { value: 10 })),
        ("if (1 < 2) { 10 }", Object::Integer(Integer { value: 10 })),
        ("if (1 > 2) { 10 }", Object::Null(Null)),
        (
            "if (1 > 2) { 10 } else { 20 }",
            Object::Integer(Integer { value: 20 }),
        ),
        (
            "if (1 < 2) { 10 } else { 20 }",
            Object::Integer(Integer { value: 10 }),
        ),
    ];

    for tt in tests {
        let evaluated = test_eval(tt.0);
        if let Object::Integer(integer) = tt.1 {
            test_integer_object(evaluated, integer.value);
        } else {
            test_null_object(evaluated);
        }
    }
}

#[test]
fn test_return_statements() {
    let tests = vec![
        ("return 10;", 10),
        ("return 10; 9;", 10),
        ("return 2 * 5; 9;", 10),
        ("9; return 2 * 5; 9;", 10),
        (
            "
                if (10 > 1){
                    if (10 > 1){
                        return 10;
                    }

                    return 1
                }
            ",
            10,
        ),
    ];
    for tt in tests {
        // A sequence of statements hands the returned value on in its
        // wrapping.
        let program = parse(tt.0);
        let mut env = Environment::new();
        let evaluated = eval_statements(&program.statements, &mut env, GLOBAL_SCOPE, MAX_CALL_DEPTH)
            .into_return()
            .expect("not a return statement");
        test_integer_object(evaluated.value.as_ref().clone(), tt.1);
        // A program hands out the value itself.
        test_integer_object(test_eval(tt.0), tt.1);
    }
}

#[test]
fn test_error_handling() {
    let tests = vec![
        ("5 + true;", "type mismatch: INTEGER + BOOLEAN"),
        ("5 + true; 5;", "type mismatch: INTEGER + BOOLEAN"),
        ("-true", "unknown operator: -BOOLEAN"),
        ("true + false;", "unknown operator: BOOLEAN + BOOLEAN"),
        ("5; true + false; 5", "unknown operator: BOOLEAN + BOOLEAN"),
        (
            "if (10 > 1) { true + false; }",
            "unknown operator: BOOLEAN + BOOLEAN",
        ),
        ("foobar", "identifier not found: foobar"),
        (r#""Hello" - "World!""#, "unknown operator: STRING - STRING"),
    ];
    for tt in tests {
        let evaluated = test_eval(tt.0);
        let err_obj = evaluated.into_error().expect("not an error object");
        assert_eq!(
            err_obj.message, tt.1,
            "expected={}, got={}",
            tt.1, err_obj.message
        );
    }
}

#[test]
fn test_let_statements() {
    let tests = vec![
        ("let a = 5; a;", 5),
        ("let a = 5 * 5; a;", 25),
        ("let a = 5; let b = a; b;", 5),
        ("let a = 5; let b = a; let c = a + b + 5; c;", 15),
        ("let a = 5; a = 10;", 10),
    ];
    for tt in tests {
        let evaluated = test_eval(tt.0);
        test_integer_object(evaluated, tt.1);
    }
}

#[test]
fn test_function_object() {
    let input = "fn(x) { x + 2; };";
    let evaluated = test_eval(input);
    let function = evaluated.into_function().expect("not a function object");
    assert_eq!(function.parameters.len(), 1);
    assert_eq!(
        function.parameters[0]
            .clone()
            .into_identifier()
            .expect("not an identifier")
            .token
            .to_string(),
        "x"
    );
    assert_eq!(function.body.into_block().expect("").string(), "{(x + 2)}");
}

#[test]
fn test_function_application() {
    let tests = vec![
        ("let identity = fn(x) { x; }; identity(5);", 5),
        ("let identity = fn(x) { return x; }; identity(5);", 5),
        ("let double = fn(x) { x * 2; }; double(5);", 10),
        ("let add = fn(x, y) { x + y; }; add(5, 5);", 10),
        ("let add = fn(x, y) { x + y; }; add(5 + 5, add(5, 5));", 20),
        ("fn(x) { x; }(5)", 5),
    ];
    for tt in tests {
        let evaluated = test_eval(tt.0);
        test_integer_object(evaluated, tt.1);
    }
}

#[test]
fn test_string_literal() {
    let input = r#""Hello World!""#;
    let evaluated = test_eval(input);
    let str = evaluated.into_string().expect("not a string object");
    assert_eq!(str.value, "Hello World!");
}

#[test]
fn test_string_concatenation() {
    let input = r#""Hello" + " " + "World!""#;
    let evaluated = test_eval(input);
    let str = evaluated.into_string().expect("not a string object");
    assert_eq!(str.value, "Hello World!");
}

#[test]
fn closure_captures_its_scope() {
    let input = "let newAdder = fn(x) { fn(y) { x + y }; }; let addTwo = newAdder(2); addTwo(3);";
    test_integer_object(test_eval(input), 5);
    let input = "let x = 1; let f = fn() { x }; let x = 2; f()";
    test_integer_object(test_eval(input), 2);
    let input = "let make = fn(n) { fn() { n } }; let a = make(1); let b = make(2); a() + b() * 10";
    test_integer_object(test_eval(input), 21);
}

#[test]
fn bindings_in_a_call_stay_in_the_call() {
    let input = "let x = 1; let f = fn() { let x = 5; x }; f() + x";
    test_integer_object(test_eval(input), 6);
    let input = "let f = fn(a) { a = a + 1; a }; let a = 10; f(1) + a";
    test_integer_object(test_eval(input), 12);
}

#[test]
fn recursion() {
    let input = "let fact = fn(n) { if (n < 2) { 1 } else { n * fact(n - 1) } }; fact(10)";
    test_integer_object(test_eval(input), 3628800);
    let input = "let fib = fn(n) { if (n < 2) { return n; } fib(n - 1) + fib(n - 2) }; fib(15)";
    test_integer_object(test_eval(input), 610);
}

#[test]
fn call_depth_is_bounded() {
    let program = parse("let f = fn(n) { if (n == 0) { 0 } else { f(n - 1) } }; f(5)");
    let node = program.to_node();
    let mut env = Environment::new();
    test_integer_object(eval_in(&node, &mut env, GLOBAL_SCOPE, 6), 0);
    let mut env = Environment::new();
    let error = eval_in(&node, &mut env, GLOBAL_SCOPE, 5).into_error().unwrap();
    assert_eq!(error.message, "call depth exceeded");
    let mut env = Environment::new();
    let error = eval_in(&node, &mut env, GLOBAL_SCOPE, 0).into_error().unwrap();
    assert_eq!(error.message, "call depth exceeded");

    // Without calls no depth is needed.
    let node = parse("1 + 2").to_node();
    let mut env = Environment::new();
    test_integer_object(eval_in(&node, &mut env, GLOBAL_SCOPE, 0), 3);

    let program = parse("let f = fn() { f() }; f()");
    let mut env = Environment::new();
    let error = eval_in(&program.to_node(), &mut env, GLOBAL_SCOPE, 20).into_error().unwrap();
    assert_eq!(error.message, "call depth exceeded");
}

#[test]
fn calls_of_what_is_no_function() {
    assert_eq!(error_message("5(1)"), "not a function: INTEGER");
    assert_eq!(error_message("true()"), "not a function: BOOLEAN");
    assert_eq!(error_message("\"f\"(1, 2)"), "not a function: STRING");
    assert_eq!(error_message("let n = if (false) { 1 }; n()"), "not a function: NULL");
}

#[test]
fn calls_with_the_wrong_number_of_arguments() {
    assert_eq!(
        error_message("let f = fn(x) { x }; f()"),
        "wrong number of arguments. got=0, want=1"
    );
    assert_eq!(
        error_message("let f = fn(x, y) { x }; f(1, 2, 3)"),
        "wrong number of arguments. got=3, want=2"
    );
    assert_eq!(
        error_message("fn() { 1 }(1, 2, 3, 4, 5, 6, 7, 8, 9, 10, 11, 12)"),
        "wrong number of arguments. got=12, want=0"
    );
}

#[test]
fn first_error_ends_the_evaluation() {
    assert_eq!(error_message("foo + bar"), "identifier not found: foo");
    assert_eq!(error_message("1 + bar"), "identifier not found: bar");
    assert_eq!(error_message("-foo"), "identifier not found: foo");
    assert_eq!(error_message("!foo"), "identifier not found: foo");
    assert_eq!(error_message("if (foo) { 1 } else { 2 }"), "identifier not found: foo");
    assert_eq!(error_message("let a = foo; 5"), "identifier not found: foo");
    assert_eq!(error_message("return foo; 5"), "identifier not found: foo");
    assert_eq!(error_message("foo(bar)"), "identifier not found: foo");
    assert_eq!(
        error_message("let f = fn(a, b, c) { 0 }; f(1, x, y)"),
        "identifier not found: x"
    );
    assert_eq!(error_message("foo == 1"), "identifier not found: foo");
    assert_eq!(
        error_message("let f = fn() { boom; 1 }; f() + later"),
        "identifier not found: boom"
    );

    // What comes after the error is not evaluated: `b` stays unbound.
    let program = parse("let a = 1; nope; let b = 2;");
    let mut env = Environment::new();
    let value = eval(Box::new(program.to_node()), &mut env);
    assert_eq!(value.into_error().unwrap().message, "identifier not found: nope");
    assert!(env.get(GLOBAL_SCOPE, &"a".to_string()).is_some());
    assert!(env.get(GLOBAL_SCOPE, &"b".to_string()).is_none());
}

#[test]
fn operators_on_unsuited_values() {
    assert_eq!(error_message("-\"a\""), "unknown operator: -STRING");
    assert_eq!(error_message("-fn(x) { x }"), "unknown operator: -FUNCTION");
    assert_eq!(error_message("-if (false) { 1 }"), "unknown operator: -NULL");
    assert_eq!(error_message("\"a\" * \"b\""), "unknown operator: STRING * STRING");
    assert_eq!(error_message("\"a\" < \"b\""), "unknown operator: STRING < STRING");
    assert_eq!(error_message("true < false"), "unknown operator: BOOLEAN < BOOLEAN");
    assert_eq!(error_message("1 + \"a\""), "type mismatch: INTEGER + STRING");
    assert_eq!(error_message("\"a\" - 1"), "type mismatch: STRING - INTEGER");
    assert_eq!(error_message("true > 1"), "type mismatch: BOOLEAN > INTEGER");
    assert_eq!(
        error_message("fn() { 1 } + fn() { 2 }"),
        "unknown operator: FUNCTION + FUNCTION"
    );
    assert_eq!(error_message("1 / 0"), "division by zero");
    assert_eq!(error_message("0 / 0"), "division by zero");
}

#[test]
fn equality_of_values() {
    let tests = vec![
        ("\"a\" == \"a\"", true),
        ("\"a\" == \"b\"", false),
        ("\"a\" != \"b\"", true),
        ("\"a\" + \"b\" == \"ab\"", true),
        ("1 == true", false),
        ("1 != true", true),
        ("\"1\" == 1", false),
        ("\"1\" != 1", true),
        ("0 == false", false),
        ("if (false) { 1 } == if (false) { 2 }", true),
        ("if (false) { 1 } == false", false),
        ("let f = fn(x) { x }; f == f", true),
        ("let f = fn(x) { x }; let g = f; f == g", true),
        ("fn(x) { x } == fn(x) { x }", false),
        ("let f = fn(x) { x }; let g = fn(x) { x }; f != g", true),
        ("let make = fn() { fn() { 1 } }; make() == make()", false),
    ];
    for tt in tests {
        test_boolean_object(test_eval(tt.0), tt.1);
    }
}

#[test]
fn truthiness() {
    let tests = vec![
        ("if (0) { 1 } else { 2 }", 1),
        ("if (\"\") { 1 } else { 2 }", 1),
        ("if (fn() { 0 }) { 1 } else { 2 }", 1),
        ("if (if (false) { 0 }) { 1 } else { 2 }", 2),
        ("if (false) { 1 } else { 2 }", 2),
        ("if (!0) { 1 } else { 2 }", 2),
    ];
    for tt in tests {
        test_integer_object(test_eval(tt.0), tt.1);
    }
    assert!(is_truthy(&Object::Integer(Integer { value: 0 })));
    assert!(is_truthy(&Object::String(StringValue { value: String::new() })));
    assert!(is_truthy(&Object::Boolean(Boolean { value: true })));
    assert!(is_truthy(&Object::Error(Error { message: String::new() })));
    assert!(!is_truthy(&Object::Boolean(Boolean { value: false })));
    assert!(!is_truthy(&Object::Null(Null)));
}

#[test]
fn integer_arithmetic_wraps_and_truncates() {
    let tests = vec![
        ("9223372036854775807 + 1", i64::MIN),
        ("-9223372036854775807 - 2", i64::MAX),
        ("9223372036854775807 * 2", -2),
        ("(-9223372036854775807 - 1) / -1", i64::MIN),
        ("-(-9223372036854775807 - 1)", i64::MIN),
        ("7 / 2", 3),
        ("-7 / 2", -3),
        ("7 / -2", -3),
        ("-7 / -2", 3),
        ("0 / 5", 0),
    ];
    for tt in tests {
        test_integer_object(test_eval(tt.0), tt.1);
    }
    test_integer_object(eval_integer_infix_expression(&Token::PLUS, 2, 3), 5);
    test_integer_object(eval_integer_infix_expression(&Token::MINUS, 2, 3), -1);
    test_integer_object(eval_integer_infix_expression(&Token::ASTERISK, 2, 3), 6);
    test_integer_object(eval_integer_infix_expression(&Token::SLASH, 7, 3), 2);
    test_boolean_object(eval_integer_infix_expression(&Token::LT, 2, 3), true);
    test_boolean_object(eval_integer_infix_expression(&Token::GT, 2, 3), false);
    assert_eq!(
        eval_integer_infix_expression(&Token::COMMA, 2, 3),
        Object::Error(Error { message: "unknown operator: INTEGER , INTEGER".to_string() })
    );
}

#[test]
fn operators_applied_to_values() {
    let one = || Object::Integer(Integer { value: 1 });
    let text = |s: &str| Object::String(StringValue { value: s.to_string() });
    assert_eq!(apply_infix_operator(&Token::PLUS, text("ab"), text("cd")), text("abcd"));
    test_boolean_object(apply_infix_operator(&Token::EQ, one(), one()), true);
    test_boolean_object(apply_infix_operator(&Token::NOT_EQ, one(), text("1")), true);
    test_boolean_object(eval_bang_operator_expression(one()), false);
    test_boolean_object(eval_bang_operator_expression(Object::Null(Null)), true);
    test_boolean_object(evel_boolean_expression(&Token::TRUE), true);
    test_boolean_object(evel_boolean_expression(&Token::FALSE), false);
    test_null_object(evel_boolean_expression(&Token::EOF));
    let wrapped = Object::Return(ReturnValue { value: Box::new(one()) });
    assert_eq!(unwrap_return_value(wrapped), one());
    assert_eq!(unwrap_return_value(one()), one());
}

#[test]
fn return_leaves_only_the_innermost_call() {
    let input = "let f = fn() { if (true) { return 1; } 2 }; f() + 10";
    test_integer_object(test_eval(input), 11);
    let input = "let f = fn() { let g = fn() { return 1; }; g(); 2 }; f()";
    test_integer_object(test_eval(input), 2);
}

#[test]
fn values_are_of_the_seven_kinds() {
    let cases = vec![
        ("1", ObjectType::INTEGER, "INTEGER"),
        ("true", ObjectType::BOOLEAN, "BOOLEAN"),
        ("\"s\"", ObjectType::STRING, "STRING"),
        ("if (false) { 1 }", ObjectType::NULL, "NULL"),
        ("fn(x) { x }", ObjectType::FUNCTION, "FUNCTION"),
        ("x", ObjectType::ERROR, "ERROR"),
    ];
    for (input, expected, name) in cases {
        let value = test_eval(input);
        assert_eq!(value.object_type(), expected);
        assert_eq!(value.object_type().to_string(), name);
    }
    let block = parse("return 1;");
    let mut env = Environment::new();
    let value = eval_statements(&block.statements, &mut env, GLOBAL_SCOPE, MAX_CALL_DEPTH);
    assert_eq!(value.object_type(), ObjectType::RETURN);
    assert_eq!(value.object_type().to_string(), "RETURN");
}

#[test]
fn values_as_shown() {
    assert_eq!(test_eval("5 * -3").inspect(), "-15");
    assert_eq!(test_eval("1 < 2").inspect(), "true");
    assert_eq!(test_eval("1 > 2").inspect(), "false");
    assert_eq!(test_eval("\"Hello\" + \" there\"").inspect(), "Hello there");
    assert_eq!(test_eval("if (false) { 1 }").inspect(), "null");
    assert_eq!(test_eval("nope").inspect(), "ERROR: identifier not found: nope");
    assert_eq!(test_eval("fn(x, y) { x + y; }").inspect(), "fn(x, y) {\n{(x + y)}\n}");
    assert_eq!(test_eval("fn() { 1; 2 }").inspect(), "fn() {\n{1}{2}\n}");
    let wrapped = Object::Return(ReturnValue {
        value: Box::new(Object::Integer(Integer { value: 7 })),
    });
    assert_eq!(wrapped.inspect(), "7");
}

#[test]
fn environment_scopes() {
    let mut env = Environment::new();
    assert_eq!(env.len(), 1);
    let five = Object::Integer(Integer { value: 5 });
    let six = Object::Integer(Integer { value: 6 });
    let a = "a".to_string();
    let b = "b".to_string();
    assert_eq!(env.get(GLOBAL_SCOPE, &a), None);
    assert_eq!(env.init(GLOBAL_SCOPE, a.clone(), five.clone()), five);
    assert_eq!(env.get(GLOBAL_SCOPE, &a), Some(five.clone()));

    let inner = env.new_enclosed_environment(GLOBAL_SCOPE);
    assert_eq!(inner, 1);
    assert_eq!(env.len(), 2);
    assert_eq!(env.get(inner, &a), Some(five.clone()));
    env.init(inner, a.clone(), six.clone());
    env.init(inner, b.clone(), six.clone());
    assert_eq!(env.get(inner, &a), Some(six.clone()));
    assert_eq!(env.get(GLOBAL_SCOPE, &a), Some(five.clone()));
    assert_eq!(env.get(GLOBAL_SCOPE, &b), None);

    // Binding again replaces.
    env.init(GLOBAL_SCOPE, a.clone(), six.clone());
    assert_eq!(env.get(GLOBAL_SCOPE, &a), Some(six.clone()));

    // A scope that does not exist binds nothing and sees nothing.
    assert_eq!(env.init(7, b.clone(), five.clone()), five);
    assert_eq!(env.get(7, &b), None);
    assert_eq!(env.len(), 2);

    // A scope around which a scope that is not older is named sees only
    // itself.
    let odd = env.new_enclosed_environment(9);
    assert_eq!(env.get(odd, &a), None);
    env.init(odd, a.clone(), five.clone());
    assert_eq!(env.get(odd, &a), Some(five));
}

#[test]
fn environment_lives_on_between_programs() {
    let mut env = Environment::new();
    let first = parse("let counter = fn(n) { fn() { n + 1 } }; let next = counter(41);");
    eval(Box::new(first.to_node()), &mut env);
    let second = parse("next()");
    test_integer_object(eval(Box::new(second.to_node()), &mut env), 42);
}

#[test]
fn object_clone_and_equality() {
    let values = vec![
        test_eval("1"),
        test_eval("true"),
        test_eval("\"s\""),
        test_eval("if (false) { 1 }"),
        test_eval("fn(x) { x }"),
        test_eval("y"),
        Object::Return(ReturnValue { value: Box::new(Object::Null(Null)) }),
    ];
    for value in &values {
        let copy = value.clone();
        assert_eq!(&copy, value);
        assert!(copy.equals(value));
    }
    for (i, a) in values.iter().enumerate() {
        for (j, b) in values.iter().enumerate() {
            if i != j {
                assert!(!a.equals(b));
            }
        }
    }
}

#[test]
fn object_accessors() {
    let one = Object::Integer(Integer { value: 1 });
    assert!(one.is_integer());
    assert!(!one.is_error());
    assert!(!one.is_return());
    assert_eq!(one.as_integer(), Some(&Integer { value: 1 }));
    assert_eq!(one.as_boolean(), None);
    assert_eq!(one.clone().into_integer(), Ok(Integer { value: 1 }));
    assert_eq!(one.clone().into_error(), Err(one.clone()));
    let error = Object::Error(Error { message: "m".to_string() });
    assert!(error.is_error());
    assert_eq!(error.as_error().unwrap().message, "m");
    assert!(Object::Null(Null).is_null());
    assert!(Object::Null(Null).as_null().is_some());
}

#[test]
fn ill_formed_literals_have_no_value() {
    let mut env = Environment::new();
    let node = Node::Expression(ExpressionType::IntegerLiteral(IntegerLiteral { token: Token::PLUS }));
    test_null_object(eval(Box::new(node), &mut env));
    let node = Node::Expression(ExpressionType::Boolean(BooleanNode { token: Token::INT(1) }));
    test_null_object(eval(Box::new(node), &mut env));
}

#[test]
fn integers_compared_for_equality() {
    test_boolean_object(eval_integer_infix_expression(&Token::EQ, 2, 2), true);
    test_boolean_object(eval_integer_infix_expression(&Token::EQ, 2, 3), false);
    test_boolean_object(eval_integer_infix_expression(&Token::NOT_EQ, 2, 2), false);
    test_boolean_object(eval_integer_infix_expression(&Token::NOT_EQ, 2, 3), true);
    test_boolean_object(eval_integer_infix_expression(&Token::EQ, i64::MIN, i64::MIN), true);
    test_boolean_object(eval_integer_infix_expression(&Token::NOT_EQ, i64::MIN, i64::MAX), true);
    test_boolean_object(eval_integer_infix_expression(&Token::EQ, -1, 1), false);
    // Arithmetic gives integers, comparison gives booleans.
    for operator in [Token::PLUS, Token::MINUS, Token::ASTERISK, Token::SLASH] {
        assert!(eval_integer_infix_expression(&operator, 6, 3).is_integer());
    }
    for operator in [Token::LT, Token::GT, Token::EQ, Token::NOT_EQ] {
        assert!(eval_integer_infix_expression(&operator, 6, 3).is_boolean());
    }
}

fn nested_calls(depth: i64) -> String {
    format!(
        "let down = fn(n) {{ if (n == 0) {{ 0 }} else {{ 1 + down(n - 1) }} }}; down({})",
        depth
    )
}

#[test]
fn recursion_three_hundred_deep() {
    test_integer_object(test_eval(&nested_calls(300)), 300);
}

#[test]
fn calls_nest_up_to_the_bound() {
    assert_eq!(MAX_CALL_DEPTH, 1000);
    // `down(n)` nests n + 1 calls.
    test_integer_object(test_eval(&nested_calls(999)), 999);
    assert_eq!(error_message(&nested_calls(1000)), "call depth exceeded");
}

#[test]
fn error_messages_are_of_the_known_kinds() {
    let prefixes = [
        "identifier not found: ",
        "unknown operator: ",
        "type mismatch: ",
        "not a function: ",
        "wrong number of arguments. got=",
    ];
    let inputs = vec![
        "x",
        "-true",
        "!x",
        "1 + true",
        "true + true",
        "\"a\" - \"b\"",
        "1(2)",
        "fn(a) { a }()",
        "let f = fn(a) { a + b }; f(1)",
        "if (1 < true) { 1 }",
        "1 / 0",
        "let f = fn() { f() }; f()",
    ];
    for input in inputs {
        let message = error_message(input);
        assert!(
            prefixes.iter().any(|prefix| message.starts_with(prefix))
                || message == "division by zero"
                || message == "call depth exceeded",
            "{}",
            message
        );
    }
}
