use mini_scheme::{parse, Node, Token};

fn id(s: &str) -> Node {
    Node::Identifier(s.to_string())
}

fn tid(s: &str) -> Token {
    Token::Identifier(s.to_string())
}

#[test]
fn test_simple() {
    assert_eq!(
        parse(&vec![Token::OpenParen, tid("+"), Token::CloseParen]).unwrap(),
        vec![Node::List(vec![id("+")])]
    );
}

#[test]
fn test_nested() {
    assert_eq!(
        parse(&vec![
            Token::OpenParen,
            tid("+"),
            Token::OpenParen,
            tid("+"),
            Token::Integer(1),
            Token::OpenParen,
            tid("+"),
            Token::Integer(3),
            Token::Integer(4),
            Token::CloseParen,
            Token::CloseParen,
            Token::Integer(5),
            Token::CloseParen,
        ])
        .unwrap(),
        vec![Node::List(vec![
            id("+"),
            Node::List(vec![
                id("+"),
                Node::Integer(1),
                Node::List(vec![id("+"), Node::Integer(3), Node::Integer(4)]),
            ]),
            Node::Integer(5),
        ])]
    );
}

#[test]
fn test_quoting() {
    assert_eq!(
        parse(&vec![Token::Quote, Token::OpenParen, tid("a"), Token::CloseParen]).unwrap(),
        vec![Node::List(vec![id("quote"), Node::List(vec![id("a")])])]
    );
    assert_eq!(
        parse(&vec![
            Token::OpenParen,
            tid("list"),
            Token::Quote,
            tid("a"),
            tid("b"),
            Token::CloseParen,
        ])
        .unwrap(),
        vec![Node::List(vec![
            id("list"),
            Node::List(vec![id("quote"), id("a")]),
            id("b"),
        ])]
    );
}

#[test]
fn test_quasiquoting() {
    assert_eq!(
        parse(&vec![
            Token::Quasiquote,
            Token::OpenParen,
            Token::Unquote,
            tid("a"),
            Token::CloseParen,
        ])
        .unwrap(),
        vec![Node::List(vec![
            id("quasiquote"),
            Node::List(vec![Node::List(vec![id("unquote"), id("a")])]),
        ])]
    );
    assert_eq!(
        parse(&vec![
            Token::Quasiquote,
            Token::OpenParen,
            Token::Unquote,
            tid("a"),
            tid("b"),
            Token::Unquote,
            tid("c"),
            Token::CloseParen,
        ])
        .unwrap(),
        vec![Node::List(vec![
            id("quasiquote"),
            Node::List(vec![
                Node::List(vec![id("unquote"), id("a")]),
                id("b"),
                Node::List(vec![id("unquote"), id("c")]),
            ]),
        ])]
    );
}

#[test]
fn test_bad_syntax() {
    assert_eq!(
        parse(&vec![Token::CloseParen]).err().unwrap().to_str(),
        "ParseError: Unexpected close paren, depth: 0"
    );
    assert_eq!(
        parse(&vec![Token::OpenParen, Token::OpenParen, Token::CloseParen])
            .err()
            .unwrap()
            .to_str(),
        "ParseError: Unexpected end of input, depth: 1"
    );
    assert_eq!(
        parse(&vec![Token::OpenParen, Token::CloseParen, Token::CloseParen])
            .err()
            .unwrap()
            .to_str(),
        "ParseError: Unexpected close paren, depth: 0"
    );
    assert_eq!(
        parse(&vec![
            Token::OpenParen,
            Token::OpenParen,
            Token::CloseParen,
            Token::OpenParen,
            Token::OpenParen,
            Token::CloseParen,
        ])
        .err()
        .unwrap()
        .to_str(),
        "ParseError: Unexpected end of input, depth: 2"
    );
}

#[test]
fn test_missing_quoted_value() {
    assert_eq!(
        parse(&vec![Token::Quote]).err().unwrap().to_str(),
        "ParseError: Missing quoted value, depth: 0"
    );
}

#[test]
fn test_empty_input_parses_to_nothing() {
    assert_eq!(parse(&vec![]).unwrap(), Vec::<Node>::new());
}

#[test]
fn test_atoms_parse_to_literals() {
    assert_eq!(
        parse(&vec![
            Token::Integer(-7),
            Token::Boolean(true),
            Token::Text("hi".to_string()),
        ])
        .unwrap(),
        vec![Node::Integer(-7), Node::Boolean(true), Node::Text("hi".to_string())]
    );
}
