use mini_scheme::{interpret, Node, Value};

fn id(s: &str) -> Node {
    Node::Identifier(s.to_string())
}

fn call(items: Vec<Node>) -> Node {
    Node::List(items)
}

#[test]
fn test_global_variables() {
    assert_eq!(
        interpret(&vec![
            call(vec![id("define"), id("x"), Node::Integer(2)]),
            call(vec![id("+"), id("x"), id("x"), id("x")]),
        ])
        .unwrap(),
        Value::Integer(6)
    );
}

#[test]
fn test_global_function_definition() {
    assert_eq!(
        interpret(&vec![
            call(vec![
                id("define"),
                id("double"),
                call(vec![
                    id("lambda"),
                    call(vec![id("x")]),
                    call(vec![id("+"), id("x"), id("x")]),
                ]),
            ]),
            call(vec![id("double"), Node::Integer(8)]),
        ])
        .unwrap(),
        Value::Integer(16)
    );
}

#[test]
fn test_plus_sums_all_arguments() {
    assert_eq!(
        interpret(&vec![call(vec![
            id("+"),
            Node::Integer(1),
            Node::Integer(2),
            Node::Integer(3),
        ])])
        .unwrap(),
        Value::Integer(6)
    );
}

#[test]
fn test_minus_subtracts() {
    assert_eq!(
        interpret(&vec![call(vec![id("-"), Node::Integer(10), Node::Integer(4)])]).unwrap(),
        Value::Integer(6)
    );
}

#[test]
fn test_plus_wraps_at_machine_range() {
    assert_eq!(
        interpret(&vec![call(vec![
            id("+"),
            Node::Integer(i64::MAX),
            Node::Integer(1),
        ])])
        .unwrap(),
        Value::Integer(i64::MIN)
    );
}

#[test]
fn test_plus_rejects_non_integer() {
    let err = interpret(&vec![call(vec![
        id("+"),
        Node::Integer(1),
        Node::Boolean(true),
    ])])
    .err()
    .unwrap();
    assert_eq!(err.message().as_str(), "Unexpected node during +");
}

#[test]
fn test_if_false_takes_else_and_skips_then() {
    // The untaken branch holds an `error` call: it must never run.
    assert_eq!(
        interpret(&vec![call(vec![
            id("if"),
            Node::Boolean(false),
            call(vec![id("error"), Node::Text("boom".to_string())]),
            Node::Integer(42),
        ])])
        .unwrap(),
        Value::Integer(42)
    );
}

#[test]
fn test_if_nonfalse_takes_then_and_skips_else() {
    assert_eq!(
        interpret(&vec![call(vec![
            id("if"),
            Node::Integer(0),
            Node::Integer(1),
            call(vec![id("error"), Node::Text("boom".to_string())]),
        ])])
        .unwrap(),
        Value::Integer(1)
    );
}

#[test]
fn test_duplicate_define_fails() {
    let err = interpret(&vec![
        call(vec![id("define"), id("x"), Node::Integer(1)]),
        call(vec![id("define"), id("x"), Node::Integer(2)]),
    ])
    .err()
    .unwrap();
    assert_eq!(err.message().as_str(), "Duplicate define: x");
}

#[test]
fn test_set_on_unbound_name_fails() {
    let err = interpret(&vec![call(vec![id("set!"), id("x"), Node::Integer(1)])])
        .err()
        .unwrap();
    assert_eq!(err.message().as_str(), "Can't set! an undefined variable: x");
}

#[test]
fn test_set_on_bound_name_updates() {
    assert_eq!(
        interpret(&vec![
            call(vec![id("define"), id("x"), Node::Integer(1)]),
            call(vec![id("set!"), id("x"), Node::Integer(5)]),
            id("x"),
        ])
        .unwrap(),
        Value::Integer(5)
    );
}

#[test]
fn test_set_inside_procedure_writes_call_frame() {
    // `set!` writes into the frame the call runs against, so a mutation made
    // inside a procedure body is not seen by the outer scope.
    assert_eq!(
        interpret(&vec![
            call(vec![id("define"), id("x"), Node::Integer(1)]),
            call(vec![
                id("define"),
                id("f"),
                call(vec![
                    id("lambda"),
                    call(vec![id("y")]),
                    call(vec![id("set!"), id("x"), Node::Integer(2)]),
                ]),
            ]),
            call(vec![id("f"), Node::Integer(0)]),
            id("x"),
        ])
        .unwrap(),
        Value::Integer(1)
    );
}

#[test]
fn test_quote_is_fixed_point_for_literals() {
    assert_eq!(
        interpret(&vec![call(vec![id("quote"), Node::Integer(5)])]).unwrap(),
        Value::Integer(5)
    );
    assert_eq!(
        interpret(&vec![call(vec![id("quote"), Node::Boolean(false)])]).unwrap(),
        Value::Boolean(false)
    );
    assert_eq!(
        interpret(&vec![call(vec![id("quote"), Node::Text("hi".to_string())])]).unwrap(),
        Value::Text("hi".to_string())
    );
}

#[test]
fn test_quote_of_unbound_identifier_yields_symbol() {
    assert_eq!(
        interpret(&vec![call(vec![id("quote"), id("nowhere")])]).unwrap(),
        Value::Symbol("nowhere".to_string())
    );
}

#[test]
fn test_unquote_evaluates_inside_quasiquote() {
    assert_eq!(
        interpret(&vec![
            call(vec![id("define"), id("x"), Node::Integer(3)]),
            call(vec![
                id("quasiquote"),
                call(vec![id("a"), call(vec![id("unquote"), id("x")])]),
            ]),
        ])
        .unwrap(),
        Value::List(vec![Value::Symbol("a".to_string()), Value::Integer(3)])
    );
}

#[test]
fn test_unquote_is_plain_outside_quasiquote() {
    assert_eq!(
        interpret(&vec![call(vec![
            id("quote"),
            call(vec![id("unquote"), id("x")]),
        ])])
        .unwrap(),
        Value::List(vec![
            Value::Symbol("unquote".to_string()),
            Value::Symbol("x".to_string()),
        ])
    );
}

#[test]
fn test_unquote_arity_error() {
    let err = interpret(&vec![call(vec![
        id("quasiquote"),
        call(vec![id("unquote"), Node::Integer(1), Node::Integer(2)]),
    ])])
    .err()
    .unwrap();
    assert_eq!(err.message().as_str(), "Must supply exactly one argument to unquote");
}

#[test]
fn test_list_collects_evaluated_values() {
    assert_eq!(
        interpret(&vec![
            call(vec![id("define"), id("b"), Node::Integer(5)]),
            call(vec![id("list"), call(vec![id("quote"), id("a")]), id("b")]),
        ])
        .unwrap(),
        Value::List(vec![Value::Symbol("a".to_string()), Value::Integer(5)])
    );
}

#[test]
fn test_user_procedure_arity_error_names_expected_count() {
    let err = interpret(&vec![call(vec![
        call(vec![id("lambda"), call(vec![id("x")]), id("x")]),
        Node::Integer(1),
        Node::Integer(2),
    ])])
    .err()
    .unwrap();
    assert_eq!(err.message().as_str(), "Must supply exactly 1 arguments to function");
}

#[test]
fn test_lambda_alias_letter() {
    assert_eq!(
        interpret(&vec![call(vec![
            call(vec![
                id("\u{3bb}"),
                call(vec![id("x")]),
                call(vec![id("+"), id("x"), id("x")]),
            ]),
            Node::Integer(4),
        ])])
        .unwrap(),
        Value::Integer(8)
    );
}

#[test]
fn test_and_short_circuits() {
    assert_eq!(interpret(&vec![call(vec![id("and")])]).unwrap(), Value::Boolean(true));
    assert_eq!(
        interpret(&vec![call(vec![id("and"), Node::Integer(1), Node::Integer(2)])]).unwrap(),
        Value::Integer(2)
    );
    assert_eq!(
        interpret(&vec![call(vec![
            id("and"),
            Node::Boolean(false),
            call(vec![id("error"), Node::Text("boom".to_string())]),
        ])])
        .unwrap(),
        Value::Boolean(false)
    );
}

#[test]
fn test_or_returns_first_truthy() {
    assert_eq!(interpret(&vec![call(vec![id("or")])]).unwrap(), Value::Boolean(false));
    assert_eq!(
        interpret(&vec![call(vec![id("or"), Node::Boolean(false), Node::Integer(7)])]).unwrap(),
        Value::Integer(7)
    );
    assert_eq!(
        interpret(&vec![call(vec![
            id("or"),
            Node::Integer(1),
            call(vec![id("error"), Node::Text("boom".to_string())]),
        ])])
        .unwrap(),
        Value::Integer(1)
    );
}

#[test]
fn test_unbound_identifier_fails() {
    let err = interpret(&vec![id("ghost_town")]).err().unwrap();
    assert_eq!(err.message().as_str(), "Identifier not found: ghost_town");
}

#[test]
fn test_non_procedure_application_fails() {
    let err = interpret(&vec![call(vec![Node::Integer(1), Node::Integer(2)])])
        .err()
        .unwrap();
    assert_eq!(err.message().as_str(), "First element in an expression must be a procedure");
}

#[test]
fn test_error_builtin_carries_rendered_text() {
    let err = interpret(&vec![call(vec![
        id("error"),
        Node::Text("boom".to_string()),
    ])])
    .err()
    .unwrap();
    assert_eq!(err.message().as_str(), "\"boom\"");
    assert_eq!(err.to_str(), "RuntimeError: \"boom\"");
}

#[test]
fn test_empty_list_evaluates_to_empty_list() {
    assert_eq!(interpret(&vec![Node::List(vec![])]).unwrap(), Value::List(vec![]));
}

#[test]
fn test_empty_program_yields_empty_list() {
    assert_eq!(interpret(&vec![]).unwrap(), Value::List(vec![]));
}

#[test]
fn test_rendering_canonical_forms() {
    assert_eq!(
        Value::List(vec![Value::Symbol("a".to_string())]).to_str(),
        "'(a)"
    );
    assert_eq!(Value::Integer(5).to_str(), "5");
    assert_eq!(Value::Boolean(false).to_str(), "#f");
    assert_eq!(Value::Boolean(true).to_str(), "#t");
    assert_eq!(Value::Symbol("abc".to_string()).to_str(), "'abc");
    assert_eq!(Value::Integer(-123).to_str(), "-123");
    assert_eq!(Value::Integer(0).to_str(), "0");
    assert_eq!(Value::Text("hi".to_string()).to_str(), "\"hi\"");
    assert_eq!(
        Value::List(vec![
            Value::Integer(1),
            Value::List(vec![Value::Integer(2), Value::Integer(3)]),
            Value::Text("x".to_string()),
        ])
        .to_str(),
        "'(1 (2 3) \"x\")"
    );
}

#[test]
fn test_rendering_extreme_integers() {
    assert_eq!(Value::Integer(i64::MIN).to_str(), "-9223372036854775808");
    assert_eq!(Value::Integer(i64::MAX).to_str(), "9223372036854775807");
}

#[test]
fn test_rendering_procedure_is_opaque() {
    let v = interpret(&vec![call(vec![id("lambda"), call(vec![id("x")]), id("x")])]).unwrap();
    assert_eq!(v.to_str(), "#<procedure>");
}

#[test]
fn test_define_returns_empty_list() {
    assert_eq!(
        interpret(&vec![call(vec![id("define"), id("x"), Node::Integer(1)])]).unwrap(),
        Value::List(vec![])
    );
}

#[test]
fn test_lambda_rejects_non_identifier_parameter() {
    let err = interpret(&vec![call(vec![
        id("lambda"),
        call(vec![Node::Integer(1)]),
        Node::Integer(2),
    ])])
    .err()
    .unwrap();
    assert_eq!(err.message().as_str(), "Unexpected argument in lambda arguments");
}

#[test]
fn test_define_requires_identifier_name() {
    let err = interpret(&vec![call(vec![
        id("define"),
        Node::Integer(1),
        Node::Integer(2),
    ])])
    .err()
    .unwrap();
    assert_eq!(err.message().as_str(), "Unexpected node for name in define");
}
