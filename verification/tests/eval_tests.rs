use minilisp::env::Env;
use minilisp::eval::eval;
use minilisp::object::Object;

#[test]
fn test_simple_add() {
    let mut env = Env::new();
    let result = eval("(+ 1 2)", &mut env).unwrap();
    assert_eq!(result, Object::Integer(3));
}

#[test]
fn eval_test_area_of_a_circle() {
    let mut env = Env::new();
    let program = "(
          (define r 10)
          (define pi 314)
          (* pi (* r r))
        )";
    let result = eval(program, &mut env).unwrap();
    assert_eq!(result, Object::List(vec![Object::Integer(314 * 10 * 10)]))
}

#[test]
fn test_sqr_function() {
    let mut env = Env::new();
    let program = "(
                        (define sqr (lambda (r) (* r r)))
                        (sqr 10)
                       )";
    let result = eval(program, &mut env).unwrap();
    assert_eq!(result, Object::List(vec![Object::Integer((10 * 10) as i64)]));
}

#[test]
fn test_fibonaci() {
    let mut env = Env::new();
    let program = "
            (
                (define fib (lambda (n) (if (< n 2) 1 (+ (fib (- n 1)) (fib (- n 2))))))
                (fib 10)
            )
        ";

    let result = eval(program, &mut env).unwrap();
    assert_eq!(result, Object::List(vec![Object::Integer(89_i64)]));
}

#[test]
fn test_factorial() {
    let mut env = Env::new();
    let program = "
            (
                (define fact (lambda (n) (if (< n 1) 1 (* n (fact (- n 1))))))
                (fact 5)
            )
        ";

    let result = eval(program, &mut env).unwrap();
    assert_eq!(result, Object::List(vec![Object::Integer(120_i64)]));
}

#[test]
fn test_circle_area_function() {
    let mut env = Env::new();
    let program = "
            (
                (define pi 314)
                (define r 10)
                (define sqr (lambda (r) (* r r)))
                (define area (lambda (r) (* pi (sqr r))))
                (area r)
            )
        ";

    let result = eval(program, &mut env).unwrap();
    assert_eq!(
        result,
        Object::List(vec![Object::Integer((314 * 10 * 10) as i64)])
    );
}

#[test]
fn test_string() {
    let mut env = Env::new();
    let program = "(define s \"hello\")";
    let result = eval(program, &mut env).unwrap();
    assert_eq!(result, Object::Void);

    let program = "(+ s \" world\")";
    let result = eval(program, &mut env).unwrap();
    assert_eq!(result, Object::String("hello world".to_string()));
}

#[test]
fn test_string_concat() {
    let mut env = Env::new();
    let result = eval("(+ \"a\" \"b\")", &mut env).unwrap();
    assert_eq!(result, Object::String("ab".to_string()));
}

#[test]
fn test_string_minus_is_type_error() {
    let mut env = Env::new();
    let result = eval("(- \"a\" \"b\")", &mut env);
    assert_eq!(result, Err("Invalid types for - operator a b".to_string()));
}

#[test]
fn test_if_true_branch() {
    let mut env = Env::new();
    let result = eval("(if (< 1 2) 10 20)", &mut env).unwrap();
    assert_eq!(result, Object::Integer(10));
}

#[test]
fn test_if_false_branch() {
    let mut env = Env::new();
    let result = eval("(if (< 2 1) 10 20)", &mut env).unwrap();
    assert_eq!(result, Object::Integer(20));
}

#[test]
fn test_if_untaken_branch_not_evaluated() {
    let mut env = Env::new();
    let result = eval("(if (< 1 2) 10 (define x 99))", &mut env).unwrap();
    assert_eq!(result, Object::Integer(10));
    // the untaken else-branch must not have defined x
    assert!(env.get("x").is_none());
    let result = eval("(+ x 1)", &mut env);
    assert_eq!(result, Err("Unbound symbol: x".to_string()));
}

#[test]
fn test_unbound_symbol_no_mutation() {
    let mut env = Env::new();
    let result = eval("(+ x 1)", &mut env);
    assert_eq!(result, Err("Unbound symbol: x".to_string()));
    assert!(env.get("x").is_none());
}

#[test]
fn test_define_does_not_leak_from_call() {
    let mut env = Env::new();
    let program = "(
            (define f (lambda (a) ((define y 5) (+ a y))))
            (f 1)
        )";
    let result = eval(program, &mut env).unwrap();
    assert_eq!(
        result,
        Object::List(vec![Object::List(vec![Object::Integer(6)])])
    );
    // the binding made inside the call's frame is gone
    assert!(env.get("y").is_none());
    assert!(env.get("f").is_some());
}

#[test]
fn test_truncating_division() {
    let mut env = Env::new();
    assert_eq!(eval("(/ 7 2)", &mut env).unwrap(), Object::Integer(3));
    assert_eq!(eval("(/ -7 2)", &mut env).unwrap(), Object::Integer(-3));
    assert_eq!(eval("(/ 7 -2)", &mut env).unwrap(), Object::Integer(-3));
    assert_eq!(eval("(/ -7 -2)", &mut env).unwrap(), Object::Integer(3));
}

#[test]
fn test_division_by_zero() {
    let mut env = Env::new();
    assert_eq!(
        eval("(/ 1 0)", &mut env),
        Err("Division by zero".to_string())
    );
}

#[test]
fn test_integer_overflow() {
    let mut env = Env::new();
    assert_eq!(
        eval("(+ 9223372036854775807 1)", &mut env),
        Err("Integer overflow in + operator".to_string())
    );
}

#[test]
fn test_comparisons() {
    let mut env = Env::new();
    assert_eq!(eval("(> 3 2)", &mut env).unwrap(), Object::Bool(true));
    assert_eq!(eval("(= 3 3)", &mut env).unwrap(), Object::Bool(true));
    assert_eq!(eval("(!= 3 3)", &mut env).unwrap(), Object::Bool(false));
    assert_eq!(eval("(< 3 2)", &mut env).unwrap(), Object::Bool(false));
}

#[test]
fn test_operator_arity_error() {
    let mut env = Env::new();
    assert_eq!(
        eval("(+ 1)", &mut env),
        Err("Invalid number of arguments for infix operator".to_string())
    );
}

#[test]
fn test_define_arity_error() {
    let mut env = Env::new();
    assert_eq!(
        eval("(define x)", &mut env),
        Err("Invalid number of arguments for define".to_string())
    );
}

#[test]
fn test_define_target_must_be_symbol() {
    let mut env = Env::new();
    assert_eq!(eval("(define 5 1)", &mut env), Err("Invalid define".to_string()));
}

#[test]
fn test_if_arity_error() {
    let mut env = Env::new();
    assert_eq!(
        eval("(if (< 1 2) 1)", &mut env),
        Err("Invalid number of arguments for if statement".to_string())
    );
}

#[test]
fn test_condition_must_be_boolean() {
    let mut env = Env::new();
    assert_eq!(
        eval("(if 1 2 3)", &mut env),
        Err("Condition must be a boolean".to_string())
    );
}

#[test]
fn test_call_of_non_lambda() {
    let mut env = Env::new();
    let result = eval("((define g 5) (g 1))", &mut env);
    assert_eq!(result, Err("Not a lambda: g".to_string()));
}

#[test]
fn test_lambda_parameter_must_be_symbol() {
    let mut env = Env::new();
    assert_eq!(
        eval("(lambda (1) (x))", &mut env),
        Err("Invalid lambda parameter".to_string())
    );
}

#[test]
fn test_lambda_body_must_be_list() {
    let mut env = Env::new();
    assert_eq!(eval("(lambda (x) 5)", &mut env), Err("Invalid lambda".to_string()));
}

#[test]
fn test_missing_call_argument() {
    let mut env = Env::new();
    let result = eval("((define f (lambda (a b) (+ a b))) (f 1))", &mut env);
    assert_eq!(
        result,
        Err("Invalid number of arguments for function call".to_string())
    );
}

#[test]
fn test_bare_atom_is_rejected() {
    let mut env = Env::new();
    assert_eq!(
        eval("42", &mut env),
        Err("Parse error: Expected LParen".to_string())
    );
}

#[test]
fn test_unclosed_list_is_rejected() {
    let mut env = Env::new();
    assert_eq!(
        eval("(+ 1 2", &mut env),
        Err("Parse error: Unclosed list".to_string())
    );
}

#[test]
fn test_unterminated_string_is_rejected() {
    let mut env = Env::new();
    assert_eq!(
        eval("(define s \"abc", &mut env),
        Err("Parse error: Tokenization error: Unterminated string: abc".to_string())
    );
}

#[test]
fn test_definitions_persist_across_lines() {
    let mut env = Env::new();
    assert_eq!(eval("(define a 2)", &mut env).unwrap(), Object::Void);
    assert_eq!(eval("(define b 3)", &mut env).unwrap(), Object::Void);
    assert_eq!(eval("(* a b)", &mut env).unwrap(), Object::Integer(6));
}

#[test]
fn test_env_shadowing() {
    let mut env = Env::new();
    env.set("a", Object::Integer(1));
    assert_eq!(env.get("a"), Some(Object::Integer(1)));
    env.extend();
    assert_eq!(env.get("a"), Some(Object::Integer(1)));
    env.set("a", Object::Integer(2));
    assert_eq!(env.get("a"), Some(Object::Integer(2)));
    assert!(env.get("b").is_none());
}

#[test]
fn test_type_error_names_operand_values() {
    let mut env = Env::new();
    assert_eq!(
        eval("(+ (lambda (a) (a)) 1)", &mut env),
        Err("Invalid types for + operator Lambda(a) 1".to_string())
    );
    assert_eq!(
        eval("(- ((+ 1 2)) 4)", &mut env),
        Err("Invalid types for - operator (3) 4".to_string())
    );
    assert_eq!(
        eval("(* (< 1 2) -1)", &mut env),
        Err("Invalid types for * operator true -1".to_string())
    );
}
