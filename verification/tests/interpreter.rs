//! End-to-end tests: textual programs are read into source expressions,
//! evaluated against a fresh environment, and their results compared in
//! printed form.

use lisp_interpreter::evaluator::{eval, State};
use lisp_interpreter::types::{EvaluationError, LispExpr, LispFunc, LispMacro, LispValue};

fn tokenize(text: &str) -> Vec<String> {
    let mut tokens = Vec::new();
    let mut cur = String::new();
    for c in text.chars() {
        match c {
            '(' | ')' => {
                if !cur.is_empty() {
                    tokens.push(cur.clone());
                    cur.clear();
                }
                tokens.push(c.to_string());
            }
            c if c.is_whitespace() => {
                if !cur.is_empty() {
                    tokens.push(cur.clone());
                    cur.clear();
                }
            }
            c => cur.push(c),
        }
    }
    if !cur.is_empty() {
        tokens.push(cur);
    }
    tokens
}

fn atom(token: &str) -> LispExpr {
    if let Some(m) = LispMacro::from_str(token) {
        LispExpr::Macro(m)
    } else if token.chars().all(|c| c.is_ascii_digit()) {
        LispExpr::Value(LispValue::Integer(token.parse().unwrap()))
    } else {
        LispExpr::OpVar(token.to_owned())
    }
}

fn parse_at(tokens: &[String], pos: &mut usize) -> LispExpr {
    assert!(*pos < tokens.len(), "unexpected end of input");
    let token = &tokens[*pos];
    *pos += 1;
    match token.as_str() {
        "(" => {
            let mut items = Vec::new();
            while tokens[*pos] != ")" {
                items.push(parse_at(tokens, pos));
            }
            *pos += 1;
            LispExpr::Call(items)
        }
        ")" => panic!("unexpected closing parenthesis"),
        t => atom(t),
    }
}

fn parse_lisp_string(text: &str) -> LispExpr {
    let tokens = tokenize(text);
    let mut pos = 0usize;
    let expr = parse_at(&tokens, &mut pos);
    assert_eq!(pos, tokens.len(), "trailing input");
    expr
}

fn check_lisp(commands: Vec<&str>) -> Result<LispValue, EvaluationError> {
    let mut state = State::default();
    let mut last_ret_val = None;
    for cmd in commands {
        let expr = parse_lisp_string(cmd);
        last_ret_val = Some(eval(expr, &mut state)?);
    }
    Ok(last_ret_val.unwrap())
}

fn check_lisp_ok(commands: Vec<&str>, expected_out: &str) {
    assert_eq!(expected_out, check_lisp(commands).unwrap().pretty_print(0));
}

fn check_lisp_err(commands: Vec<&str>, expected_err: EvaluationError) {
    assert_eq!(expected_err, check_lisp(commands).unwrap_err());
}

#[test]
fn shadowing() {
    check_lisp_ok(
        vec![
            "(define f (lambda (x) (lambda (x) x)))",
            "(list ((f #t) 3) ((f (list)) #f))",
        ],
        "(3 #f)",
    );
}

#[test]
fn shadowing_two() {
    check_lisp_ok(
        vec![
            "(define add (lambda (x y) (cond (zero? y) x (add (add1 x) (sub1 y)))))",
            "((lambda (x) (add ((lambda (x) (add1 x)) x) x)) 10)",
        ],
        "21",
    );
}

#[test]
fn shadowing_three() {
    check_lisp_ok(
        vec![
            "(define add (lambda (x y) (cond (zero? y) x (add (add1 x) (sub1 y)))))",
            "((lambda (x) (add x ((lambda (x) (add (sub1 x) x)) x))) 4)",
        ],
        "11",
    );
}

#[test]
fn display_int_val() {
    let val = LispValue::Integer(5);
    assert_eq!("5", val.pretty_print(0));
}

#[test]
fn display_list_val() {
    let val = LispValue::List(vec![LispValue::Integer(1), LispValue::List(vec![])]);
    assert_eq!("(1 ())", val.pretty_print(0));
}

#[test]
fn function_add() {
    check_lisp_ok(
        vec![
            "(define add (lambda (x y) (cond (zero? y) x (add (add1 x) (sub1 y)))))",
            "(add 77 12)",
        ],
        "89",
    );
}

#[test]
fn function_multiply() {
    check_lisp_ok(
        vec![
            "(define add (lambda (x y) (cond (zero? y) x (add (add1 x) (sub1 y)))))",
            "(define mult (lambda (x y) (cond (zero? y) 0 (add x (mult x (sub1 y))))))",
            "(mult 7 3)",
        ],
        "21",
    );
}

#[test]
fn map2_zip() {
    check_lisp_ok(
        vec![
            "(define add (lambda (x y) (cond (zero? y) x (add (add1 x) (sub1 y)))))",
            "(define or (lambda (x y) (cond x #t y)))",
            "(define zip (lambda (x y) (cond (or (null? x) (null? y)) (list) (cons (list (car x) (car y)) (zip (cdr x) (cdr y))))))",
            "(define map2 (lambda (f l) (cond (null? l) (list) (cons (f (car (cdr (car l))) (car (car l))) (map2 f (cdr l))))))",
            "(map2 add (zip (list 1 2 3 4 5) (list 0 20 40 60)))",
        ],
        "(2 23 44 65)",
    );
}

#[test]
fn function_def() {
    check_lisp_ok(
        vec!["(define add2 (lambda (x) (add1 (add1 x))))", "(add2 5)"],
        "7",
    );
}

#[test]
fn variable_overwrite() {
    check_lisp_err(
        vec!["(define x 1)", "(define x 1000)", "(add1 x)"],
        EvaluationError::BadDefine,
    );
}

#[test]
fn check_int() {
    check_lisp_ok(
        vec![
            "(define map (lambda (f xs) (cond (null? xs) (list) (cons (f (car xs)) (map f (cdr xs))))))",
            "(map int? (list 1 2 #t (list 3 4) add1 0))",
        ],
        "(#t #t #f #f #f #t)",
    );
}

#[test]
fn check_bool() {
    check_lisp_ok(
        vec!["(list (bool? #t) (bool? #f) (bool? 5) (bool? (list #t)) (bool? bool?))"],
        "(#t #t #f #f #f)",
    );
}

#[test]
fn check_fun() {
    check_lisp_ok(
        vec!["(list (fun? #t) (fun? fun?) (fun? 0) (fun? bool?) (fun? (lambda (x) #t)) (fun? #t))"],
        "(#f #t #f #t #t #f)",
    );
}

#[test]
fn check_list() {
    check_lisp_ok(
        vec!["(list (list? list) (list? list?) (list? (list)))"],
        "(#f #f #t)",
    );
}

#[test]
fn is_null_empty_list() {
    check_lisp_ok(vec!["(null? (list))"], "#t");
}

#[test]
fn cdr() {
    check_lisp_ok(vec!["(cdr (list 1 2 3 4))"], "(1 2 3)");
}

#[test]
fn is_zero_of_zero() {
    check_lisp_ok(vec!["(zero? 0)"], "#t");
}

#[test]
fn is_zero_of_nonzero() {
    check_lisp_ok(vec!["(zero? 5)"], "#f");
}

#[test]
fn is_zero_of_list() {
    check_lisp_err(
        vec!["(zero? (list 0))"],
        EvaluationError::ArgumentTypeMismatch,
    );
}

#[test]
fn is_zero_two_args() {
    check_lisp_err(vec!["(zero? 0 0)"], EvaluationError::ArgumentCountMismatch);
}

#[test]
fn too_few_arguments() {
    check_lisp_err(vec!["(add1)"], EvaluationError::ArgumentCountMismatch);
}

#[test]
fn lower_level_define() {
    check_lisp_err(
        vec!["(list (define x 5))"],
        EvaluationError::MalformedDefinition,
    );
}

#[test]
fn too_many_arguments() {
    check_lisp_err(
        vec!["(lambda f (x) (add1 x) ())"],
        EvaluationError::ArgumentCountMismatch,
    );
}

#[test]
fn non_function_app() {
    check_lisp_err(vec!["(10 3)"], EvaluationError::NonFunctionApplication);
}

#[test]
fn unexpected_operator() {
    check_lisp_err(
        vec!["(cond cond cond cond)"],
        EvaluationError::UnexpectedOperator,
    );
}

#[test]
fn undefined_function() {
    check_lisp_err(
        vec!["(first (list 10 3))"],
        EvaluationError::UnknownVariable("first".into()),
    );
}

#[test]
fn test_variable_list() {
    check_lisp_ok(
        vec![
            "(define x 3)",
            "(define + (lambda (x y) (cond (zero? y) x (+ (add1 x) (sub1 y)))))",
            "(list x 1 (+ 1 x) 5)",
        ],
        "(3 1 4 5)",
    );
}

#[test]
fn eval_empty_list() {
    check_lisp_ok(vec!["(list)"], "()");
}

#[test]
fn map() {
    check_lisp_ok(
        vec![
            "(define map (lambda (f xs) (cond (null? xs) (list) (cons (f (car xs)) (map f (cdr xs))))))",
            "(map add1 (list 1 2 3))",
        ],
        "(2 3 4)",
    );
}

#[test]
fn lambda() {
    check_lisp_ok(
        vec![
            "(define add (lambda (x y) (cond (zero? y) x (add (add1 x) (sub1 y)))))",
            "(define mult (lambda (x y) (cond (zero? y) 0 (add x (mult x (sub1 y))))))",
            "(define map (lambda (f xs) (cond (null? xs) (list) (cons (f (car xs)) (map f (cdr xs))))))",
            "(map (lambda (x) (mult x x)) (list 1 2 3))",
        ],
        "(1 4 9)",
    );
}

const SORT_COMMANDS: &[&str] = &[
    "(define filter (lambda (f xs) (cond (null? xs) (list) (cond (f (car xs)) (cons (car xs) (filter f (cdr xs))) (filter f (cdr xs))))))",
    "(define not (lambda (t) (cond t #f #t)))",
    "(define > (lambda (x y) (cond (zero? x) #f (cond (zero? y) #t (> (sub1 x) (sub1 y))))))",
    "(define and (lambda (t1 t2) (cond t1 t2 #f)))",
    "(define append (lambda (l1 l2) (cond (null? l2) l1 (cons (car l2) (append l1 (cdr l2))))))",
    "(define sort (lambda (l) (cond (null? l) l (append (cons (car l) (sort (filter (lambda (x) (not (> x (car l)))) (cdr l)))) (sort (filter (lambda (x) (> x (car l))) l))))))",
];

#[test]
fn sort() {
    let mut commands: Vec<&str> = SORT_COMMANDS.to_vec();
    commands.push("(sort (list 5 3 2 10 0 7))");
    check_lisp_ok(commands, "(0 2 3 5 7 10)");
}

#[test]
fn closures() {
    check_lisp_ok(
        vec![
            "(define add (lambda (x y) (cond (zero? y) x (add (add1 x) (sub1 y)))))",
            "(define map (lambda (f xs) (cond (null? xs) (list) (cons (f (car xs)) (map f (cdr xs))))))",
            "(map (lambda (f) (f 10)) (map (lambda (n) (lambda (x) (add x n))) (list 1 2 3 4 5 6 7 8 9 10)))",
        ],
        "(11 12 13 14 15 16 17 18 19 20)",
    );
}

#[test]
fn list_closure() {
    assert!(check_lisp(vec!["(list add1 ((lambda (f x) (f x)) sub1))"]).is_ok());
}

#[test]
fn curry() {
    check_lisp_ok(
        vec![
            "(define add (lambda (x y) (cond (zero? y) x (add (add1 x) (sub1 y)))))",
            "(define sum3 (lambda (x y z) (add x (add y z))))",
            "(define sum2and5 (sum3 5))",
            "(sum2and5 10 20)",
        ],
        "35",
    );
}

#[test]
fn cyclic_func_calls() {
    check_lisp_ok(
        vec![
            "(define <' (lambda (x y) (cond (zero? y) #f (< x (sub1 y)))))",
            "(define < (lambda (x y) (cond (zero? x) (cond (zero? y) #f #t) (<' (sub1 x) y))))",
            "(list (< 1 2) (< 0 1) (< 2 2) (< 1 1) (< 1 0) (< 2 1))",
        ],
        "(#t #t #f #f #f #f)",
    );
}

#[test]
fn range() {
    check_lisp_ok(
        vec![
            "(define > (lambda (x y) (cond (zero? x) #f (cond (zero? y) #t (> (sub1 x) (sub1 y))))))",
            "(define range (lambda (start end) (cond (> end start) (cons end (range start (sub1 end))) (list start))))",
            "(range 1 5)",
        ],
        "(1 2 3 4 5)",
    );
}

#[test]
fn zero_arg_function_call() {
    check_lisp_err(
        vec![
            "(define add (lambda (x y) (cond (zero? y) x (add (add1 x) (sub1 y)))))",
            "(add)",
        ],
        EvaluationError::ArgumentCountMismatch,
    );
}

#[test]
fn sub_one_of_zero() {
    check_lisp_err(vec!["(sub1 0)"], EvaluationError::SubZero);
}

#[test]
fn car_of_empty_list() {
    check_lisp_err(vec!["(car (list))"], EvaluationError::EmptyList);
}

#[test]
fn cdr_of_empty_list() {
    check_lisp_err(vec!["(cdr (list))"], EvaluationError::EmptyList);
}

#[test]
fn empty_call() {
    check_lisp_err(vec!["(())"], EvaluationError::EmptyListEvaluation);
}

#[test]
fn define_yields_empty_list() {
    check_lisp_ok(vec!["(define x 42)"], "()");
}

#[test]
fn failed_define_keeps_first_binding() {
    let mut state = State::default();
    eval(parse_lisp_string("(define x 1)"), &mut state).unwrap();
    assert_eq!(
        EvaluationError::BadDefine,
        eval(parse_lisp_string("(define x 1000)"), &mut state).unwrap_err()
    );
    let v = eval(parse_lisp_string("x"), &mut state).unwrap();
    assert_eq!("1", v.pretty_print(0));
}

#[test]
fn add_one_saturates_at_max() {
    check_lisp_ok(
        vec!["(add1 18446744073709551615)"],
        "18446744073709551615",
    );
}

#[test]
fn cons_car_cdr_round_trip() {
    check_lisp_ok(
        vec!["(cons (car (list 1 2 3)) (cdr (list 1 2 3)))"],
        "(1 2 3)",
    );
}

#[test]
fn repeated_evaluation_same_result() {
    let program = vec![
        "(define add (lambda (x y) (cond (zero? y) x (add (add1 x) (sub1 y)))))",
        "(add 21 21)",
    ];
    let first = check_lisp(program.clone()).unwrap().pretty_print(0);
    let second = check_lisp(program).unwrap().pretty_print(0);
    assert_eq!(first, second);
    assert_eq!("42", first);
}

#[test]
fn pure_expression_twice_in_one_state() {
    let mut state = State::default();
    let a = eval(parse_lisp_string("(cons 1 (list 2 3))"), &mut state)
        .unwrap()
        .pretty_print(0);
    let b = eval(parse_lisp_string("(cons 1 (list 2 3))"), &mut state)
        .unwrap()
        .pretty_print(0);
    assert_eq!(a, b);
    assert_eq!("(2 3 1)", a);
}

#[test]
fn currying_all_splits() {
    let defs = vec![
        "(define add (lambda (x y) (cond (zero? y) x (add (add1 x) (sub1 y)))))",
        "(define sum3 (lambda (x y z) (add x (add y z))))",
    ];
    for call in [
        "(sum3 5 10 20)",
        "((sum3 5) 10 20)",
        "((sum3 5 10) 20)",
        "(((sum3 5) 10) 20)",
        "((((sum3 5) 10)) 20)",
    ] {
        let mut commands = defs.clone();
        commands.push(call);
        if call == "((((sum3 5) 10)) 20)" {
            // applying a partial application to no arguments at all is a
            // count mismatch, not a trivial continuation
            assert_eq!(
                EvaluationError::ArgumentCountMismatch,
                check_lisp(commands).unwrap_err()
            );
        } else {
            check_lisp_ok(commands, "35");
        }
    }
}

#[test]
fn deep_tail_recursion_runs() {
    check_lisp_ok(
        vec![
            "(define add (lambda (x y) (cond (zero? y) x (add (add1 x) (sub1 y)))))",
            "(add 1 100000)",
        ],
        "100001",
    );
}

#[test]
fn builtin_prints_debug_name() {
    assert_eq!(
        "[CheckZero]",
        check_lisp(vec!["zero?"]).unwrap().pretty_print(0)
    );
}

#[test]
fn argument_type_mismatch_in_cond_test() {
    check_lisp_err(vec!["(cond 5 1 2)"], EvaluationError::ArgumentTypeMismatch);
}

#[test]
fn malformed_lambda_parameter() {
    check_lisp_err(
        vec!["(lambda (5) 1)"],
        EvaluationError::MalformedDefinition,
    );
}

#[test]
fn lambda_args_not_a_list() {
    check_lisp_err(
        vec!["(lambda x 1)"],
        EvaluationError::ArgumentTypeMismatch,
    );
}

#[test]
fn bad_define_shape() {
    check_lisp_err(
        vec!["(define x 1 2)"],
        EvaluationError::BadDefine,
    );
}

#[test]
fn function_values_are_functions() {
    let v = check_lisp(vec!["(lambda (x) x)"]).unwrap();
    assert!(matches!(v, LispValue::Function(LispFunc::Custom(_))));
}
