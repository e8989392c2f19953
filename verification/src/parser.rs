//! Parser: turns a token stream into a sequence of syntax nodes.
//!
//! The grammar is the usual s-expression surface: parentheses open and close
//! lists, and the quote, quasiquote and unquote shorthands wrap the following
//! node in a call of the matching special form.

use vstd::prelude::*;
use crate::numeral::{dec_digits, u64_to_string};

verus! {

/// One lexed token, as the lexing stage hands it over.
#[derive(Debug, PartialEq, Clone)]
pub enum Token {
    OpenParen,
    CloseParen,
    Quote,
    Quasiquote,
    Unquote,
    Identifier(String),
    Integer(i64),
    Boolean(bool),
    Text(String),
}

/// The mathematical image of a token.
pub enum TokenV {
    OpenParen,
    CloseParen,
    Quote,
    Quasiquote,
    Unquote,
    Identifier(Seq<char>),
    Integer(i64),
    Boolean(bool),
    Text(Seq<char>),
}

pub open spec fn token_view(t: Token) -> TokenV {
    match t {
        Token::OpenParen => TokenV::OpenParen,
        Token::CloseParen => TokenV::CloseParen,
        Token::Quote => TokenV::Quote,
        Token::Quasiquote => TokenV::Quasiquote,
        Token::Unquote => TokenV::Unquote,
        Token::Identifier(s) => TokenV::Identifier(s@),
        Token::Integer(n) => TokenV::Integer(n),
        Token::Boolean(b) => TokenV::Boolean(b),
        Token::Text(s) => TokenV::Text(s@),
    }
}

pub open spec fn token_views(s: Seq<Token>) -> Seq<TokenV>
    decreases s.len(),
{
    if s.len() == 0 {
        Seq::empty()
    } else {
        seq![token_view(s[0])] + token_views(s.subrange(1, s.len() as int))
    }
}

pub broadcast proof fn lemma_token_views_len(s: Seq<Token>)
    ensures
        (#[trigger] token_views(s)).len() == s.len(),
    decreases s.len(),
{
    if s.len() != 0 {
        lemma_token_views_len(s.subrange(1, s.len() as int));
    }
}

pub broadcast proof fn lemma_token_views_index(s: Seq<Token>, i: int)
    requires
        0 <= i < s.len(),
    ensures
        #[trigger] token_views(s)[i] == token_view(s[i]),
    decreases s.len(),
{
    broadcast use lemma_token_views_len;

    if i > 0 {
        lemma_token_views_index(s.subrange(1, s.len() as int), i - 1);
    }
}

/// One syntax node: an atom or a nested list.
#[derive(Debug, PartialEq)]
pub enum Node {
    Identifier(String),
    Integer(i64),
    Boolean(bool),
    Text(String),
    List(Vec<Node>),
}

/// The mathematical image of a syntax node.
pub enum NodeV {
    Identifier(Seq<char>),
    Integer(i64),
    Boolean(bool),
    Text(Seq<char>),
    List(Seq<NodeV>),
}

pub open spec fn node_view(n: Node) -> NodeV
    decreases n,
{
    match n {
        Node::Identifier(s) => NodeV::Identifier(s@),
        Node::Integer(v) => NodeV::Integer(v),
        Node::Boolean(b) => NodeV::Boolean(b),
        Node::Text(s) => NodeV::Text(s@),
        Node::List(v) => NodeV::List(node_views(v@)),
    }
}

pub open spec fn node_views(s: Seq<Node>) -> Seq<NodeV>
    decreases s,
{
    if s.len() == 0 {
        Seq::empty()
    } else {
        seq![node_view(s[0])] + node_views(s.subrange(1, s.len() as int))
    }
}

pub broadcast proof fn lemma_node_views_len(s: Seq<Node>)
    ensures
        (#[trigger] node_views(s)).len() == s.len(),
    decreases s.len(),
{
    if s.len() != 0 {
        lemma_node_views_len(s.subrange(1, s.len() as int));
    }
}

pub broadcast proof fn lemma_node_views_index(s: Seq<Node>, i: int)
    requires
        0 <= i < s.len(),
    ensures
        #[trigger] node_views(s)[i] == node_view(s[i]),
    decreases s.len(),
{
    broadcast use lemma_node_views_len;

    if i > 0 {
        lemma_node_views_index(s.subrange(1, s.len() as int), i - 1);
    }
}

pub broadcast proof fn lemma_node_views_push(s: Seq<Node>, n: Node)
    ensures
        #[trigger] node_views(s.push(n)) == node_views(s).push(node_view(n)),
{
    broadcast use {lemma_node_views_len, lemma_node_views_index};

    assert forall|k: int| 0 <= k < s.len() + 1 implies node_views(s.push(n))[k] == node_views(
        s,
    ).push(node_view(n))[k] by {
        lemma_node_views_index(s.push(n), k);
        if k < s.len() {
            lemma_node_views_index(s, k);
        }
    }
    assert(node_views(s.push(n)) =~= node_views(s).push(node_view(n)));
}

impl Clone for Node {
    /// A deep copy; the copy has the same mathematical image.
    fn clone(&self) -> (r: Self)
        ensures
            node_view(r) == node_view(*self),
        decreases self,
    {
        broadcast use {lemma_node_views_len, lemma_node_views_index};

        match self {
            Node::Identifier(s) => Node::Identifier(s.clone()),
            Node::Integer(v) => Node::Integer(*v),
            Node::Boolean(b) => Node::Boolean(*b),
            Node::Text(s) => Node::Text(s.clone()),
            Node::List(v) => {
                let mut out: Vec<Node> = Vec::new();
                let mut i: usize = 0;
                while i < v.len()
                    invariant
                        *self == Node::List(*v),
                        i <= v@.len(),
                        node_views(out@) == node_views(v@).subrange(0, i as int),
                    decreases v@.len() - i,
                {
                    proof {
                        assert(*v == self->List_0);
                        assert(decreases_to!(*self => self->List_0));
                        assert(decreases_to!(*v => v@[i as int]));
                        assert(decreases_to!(*self => v@[i as int]));
                    }
                    let ghost old_out = out@;
                    out.push(v[i].clone());
                    i = i + 1;
                    proof {
                        lemma_node_views_len(v@);
                        lemma_node_views_len(out@);
                        lemma_node_views_len(old_out);
                        assert forall|k: int| 0 <= k < i implies node_views(out@)[k] == node_views(
                            v@,
                        ).subrange(0, i as int)[k] by {
                            lemma_node_views_index(out@, k);
                            lemma_node_views_index(v@, k);
                            if k < i - 1 {
                                lemma_node_views_index(old_out, k);
                            }
                        }
                        assert(node_views(out@) =~= node_views(v@).subrange(0, i as int));
                    }
                }
                proof {
                    assert(node_views(out@) =~= node_views(v@));
                }
                Node::List(out)
            },
        }
    }
}

/// A failure of the parsing stage, carrying a human-readable message.
#[derive(Debug)]
pub struct ParseError {
    message: String,
}

impl View for ParseError {
    type V = Seq<char>;

    closed spec fn view(&self) -> Seq<char> {
        self.message@
    }
}

impl ParseError {
    /// The rendered form of the error, as shown to a user.
    pub fn to_str(&self) -> (s: String)
        ensures
            s@ == "ParseError: "@ + self@,
    {
        let mut s = String::from_str("ParseError: ");
        s.append(self.message.as_str());
        s
    }
}

pub open spec fn msg_unexpected_close(depth: nat) -> Seq<char> {
    "Unexpected close paren, depth: "@ + dec_digits(depth)
}

pub open spec fn msg_unexpected_end(depth: nat) -> Seq<char> {
    "Unexpected end of input, depth: "@ + dec_digits(depth)
}

pub open spec fn msg_missing_quoted(depth: nat) -> Seq<char> {
    "Missing quoted value, depth: "@ + dec_digits(depth)
}

pub open spec fn msg_missing_quasiquoted(depth: nat) -> Seq<char> {
    "Missing quasiquoted value, depth: "@ + dec_digits(depth)
}

pub open spec fn msg_missing_unquoted(depth: nat) -> Seq<char> {
    "Missing unquoted value, depth: "@ + dec_digits(depth)
}

/// Parsing one quote / quasiquote / unquote shorthand: the next node is
/// wrapped in a call of the special form named `name`.
pub open spec fn s_parse_shorthand(
    toks: Seq<TokenV>,
    i: int,
    depth: nat,
    name: Seq<char>,
    missing: Seq<char>,
) -> (Result<Option<NodeV>, Seq<char>>, int)
    decreases toks.len() - i, 0nat,
{
    if i < toks.len() {
        let (r, j) = s_parse_node(toks, i + 1, depth);
        match r {
            Ok(o) => match o {
                Option::Some(inner) => (
                    Ok(Option::Some(NodeV::List(seq![NodeV::Identifier(name), inner]))),
                    j,
                ),
                Option::None => (Err(missing), j),
            },
            Err(m) => (Err(m), j),
        }
    } else {
        (Err(missing), i)
    }
}

/// One node of the token stream, starting at index `i` inside `depth` open
/// parentheses.  Returns the node (or `None` at the end of the current list
/// or input) and the index just past what was consumed.
pub open spec fn s_parse_node(toks: Seq<TokenV>, i: int, depth: nat) -> (Result<
    Option<NodeV>,
    Seq<char>,
>, int)
    decreases toks.len() - i, 1nat,
{
    if i < 0 || i >= toks.len() {
        if depth == 0 {
            (Ok(Option::None), i)
        } else {
            (Err(msg_unexpected_end(depth)), i)
        }
    } else {
        match toks[i] {
            TokenV::OpenParen => {
                let (r, j) = s_parse_nodes(toks, i + 1, (depth + 1) as nat);
                match r {
                    Ok(ns) => (Ok(Option::Some(NodeV::List(ns))), j),
                    Err(m) => (Err(m), j),
                }
            },
            TokenV::CloseParen => {
                if depth > 0 {
                    (Ok(Option::None), i + 1)
                } else {
                    (Err(msg_unexpected_close(depth)), i + 1)
                }
            },
            TokenV::Quote => s_parse_shorthand(toks, i, depth, "quote"@, msg_missing_quoted(depth)),
            TokenV::Quasiquote => s_parse_shorthand(
                toks,
                i,
                depth,
                "quasiquote"@,
                msg_missing_quasiquoted(depth),
            ),
            TokenV::Unquote => s_parse_shorthand(
                toks,
                i,
                depth,
                "unquote"@,
                msg_missing_unquoted(depth),
            ),
            TokenV::Identifier(s) => (Ok(Option::Some(NodeV::Identifier(s))), i + 1),
            TokenV::Integer(n) => (Ok(Option::Some(NodeV::Integer(n))), i + 1),
            TokenV::Boolean(b) => (Ok(Option::Some(NodeV::Boolean(b))), i + 1),
            TokenV::Text(s) => (Ok(Option::Some(NodeV::Text(s))), i + 1),
        }
    }
}

/// All nodes from index `i` up to the end of the current list or input.
/// A parsed node consumes at least one token; the guard on the recursion
/// restates that so the measure plainly decreases.
pub open spec fn s_parse_nodes(toks: Seq<TokenV>, i: int, depth: nat) -> (Result<
    Seq<NodeV>,
    Seq<char>,
>, int)
    decreases toks.len() - i, 2nat,
{
    let (r, j) = s_parse_node(toks, i, depth);
    match r {
        Ok(o) => match o {
            Option::Some(n) => {
                if i < j && j <= toks.len() {
                    let (r2, k) = s_parse_nodes(toks, j, depth);
                    match r2 {
                        Ok(rest) => (Ok(seq![n] + rest), k),
                        Err(m) => (Err(m), k),
                    }
                } else {
                    (Ok(seq![n]), j)
                }
            },
            Option::None => (Ok(Seq::empty()), j),
        },
        Err(m) => (Err(m), j),
    }
}

/// The parse of a whole token stream.
pub open spec fn s_parse(toks: Seq<TokenV>) -> Result<Seq<NodeV>, Seq<char>> {
    s_parse_nodes(toks, 0, 0).0
}

/// A parsed node consumes at least one token and never reads past the end.
pub proof fn lemma_parse_node_progress(toks: Seq<TokenV>, i: int, depth: nat)
    requires
        0 <= i <= toks.len(),
    ensures
        ({
            let (r, j) = s_parse_node(toks, i, depth);
            &&& i <= j <= toks.len()
            &&& ((r matches Ok(o) && o is Some) ==> j > i)
        }),
    decreases toks.len() - i, 1nat,
{
    if i < toks.len() {
        match toks[i] {
            TokenV::OpenParen => {
                lemma_parse_nodes_progress(toks, i + 1, (depth + 1) as nat);
            },
            TokenV::Quote => {
                lemma_parse_node_progress(toks, i + 1, depth);
            },
            TokenV::Quasiquote => {
                lemma_parse_node_progress(toks, i + 1, depth);
            },
            TokenV::Unquote => {
                lemma_parse_node_progress(toks, i + 1, depth);
            },
            _ => {},
        }
    }
}

/// Parsing a node sequence never reads past the end of the tokens.
pub proof fn lemma_parse_nodes_progress(toks: Seq<TokenV>, i: int, depth: nat)
    requires
        0 <= i <= toks.len(),
    ensures
        ({
            let (r, j) = s_parse_nodes(toks, i, depth);
            i <= j <= toks.len()
        }),
    decreases toks.len() - i, 2nat,
{
    lemma_parse_node_progress(toks, i, depth);
    let (r, j) = s_parse_node(toks, i, depth);
    match r {
        Ok(o) => match o {
            Option::Some(_) => {
                if i < j && j <= toks.len() {
                    lemma_parse_nodes_progress(toks, j, depth);
                }
            },
            Option::None => {},
        },
        Err(_) => {},
    }
}

pub open spec fn opt_node_view(o: Option<Node>) -> Option<NodeV> {
    match o {
        Option::Some(n) => Option::Some(node_view(n)),
        Option::None => Option::None,
    }
}

/// Builds the error message for a malformed stream: a fixed text plus the
/// current nesting depth.
fn depth_message(prefix: &str, depth: usize) -> (m: String)
    ensures
        m@ == prefix@ + dec_digits(depth as nat),
{
    let mut m = String::from_str(prefix);
    let d = u64_to_string(depth as u64);
    m.append(d.as_str());
    m
}

/// Wraps a node parsed after a quote-like shorthand token in a call of the
/// matching special form.
fn wrap_shorthand(name: &'static str, inner: Node) -> (r: Node)
    ensures
        node_view(r) == NodeV::List(seq![NodeV::Identifier(name@), node_view(inner)]),
{
    broadcast use lemma_node_views_push;

    let ghost inner_v = node_view(inner);
    let ghost inner_snap = inner;
    let mut items: Vec<Node> = Vec::new();
    let head = Node::Identifier(String::from_str(name));
    let ghost head_snap = head;
    let ghost head_v = node_view(head);
    items.push(head);
    items.push(inner);
    proof {
        lemma_node_views_push(Seq::empty(), head_snap);
        lemma_node_views_push(Seq::empty().push(head_snap), inner_snap);
        assert(node_views(items@) =~= seq![NodeV::Identifier(name@), inner_v]);
    }
    Node::List(items)
}

/// Reads one node starting at token `i`.  The result and the index just past
/// the consumed tokens agree with the mathematical parser.
fn parse_node(tokens: &Vec<Token>, i: usize, depth: usize) -> (res: (Result<
    Option<Node>,
    ParseError,
>, usize))
    requires
        depth <= i <= tokens@.len(),
    ensures
        ({
            let (r, j) = s_parse_node(token_views(tokens@), i as int, depth as nat);
            &&& res.1 == j
            &&& (match (res.0, r) {
                (Ok(o), Ok(ov)) => opt_node_view(o) == ov,
                (Err(e), Err(m)) => e@ == m,
                _ => false,
            })
        }),
    decreases tokens@.len() - i, 1nat,
{
    broadcast use {lemma_token_views_len, lemma_token_views_index};

    let ghost toks = token_views(tokens@);
    if i >= tokens.len() {
        if depth == 0 {
            (Ok(Option::None), i)
        } else {
            let m = depth_message("Unexpected end of input, depth: ", depth);
            (Err(ParseError { message: m }), i)
        }
    } else {
        match &tokens[i] {
            Token::OpenParen => {
                let (r, j) = parse_nodes(tokens, i + 1, depth + 1);
                match r {
                    Ok(ns) => (Ok(Option::Some(Node::List(ns))), j),
                    Err(e) => (Err(e), j),
                }
            },
            Token::CloseParen => {
                if depth > 0 {
                    (Ok(Option::None), i + 1)
                } else {
                    let m = depth_message("Unexpected close paren, depth: ", depth);
                    (Err(ParseError { message: m }), i + 1)
                }
            },
            Token::Quote => {
                let (r, j) = parse_node(tokens, i + 1, depth);
                match r {
                    Ok(o) => match o {
                        Option::Some(inner) => (
                            Ok(Option::Some(wrap_shorthand("quote", inner))),
                            j,
                        ),
                        Option::None => {
                            let m = depth_message("Missing quoted value, depth: ", depth);
                            (Err(ParseError { message: m }), j)
                        },
                    },
                    Err(e) => (Err(e), j),
                }
            },
            Token::Quasiquote => {
                let (r, j) = parse_node(tokens, i + 1, depth);
                match r {
                    Ok(o) => match o {
                        Option::Some(inner) => (
                            Ok(Option::Some(wrap_shorthand("quasiquote", inner))),
                            j,
                        ),
                        Option::None => {
                            let m = depth_message("Missing quasiquoted value, depth: ", depth);
                            (Err(ParseError { message: m }), j)
                        },
                    },
                    Err(e) => (Err(e), j),
                }
            },
            Token::Unquote => {
                let (r, j) = parse_node(tokens, i + 1, depth);
                match r {
                    Ok(o) => match o {
                        Option::Some(inner) => (
                            Ok(Option::Some(wrap_shorthand("unquote", inner))),
                            j,
                        ),
                        Option::None => {
                            let m = depth_message("Missing unquoted value, depth: ", depth);
                            (Err(ParseError { message: m }), j)
                        },
                    },
                    Err(e) => (Err(e), j),
                }
            },
            Token::Identifier(s) => (Ok(Option::Some(Node::Identifier(s.clone()))), i + 1),
            Token::Integer(n) => (Ok(Option::Some(Node::Integer(*n))), i + 1),
            Token::Boolean(b) => (Ok(Option::Some(Node::Boolean(*b))), i + 1),
            Token::Text(s) => (Ok(Option::Some(Node::Text(s.clone()))), i + 1),
        }
    }
}

/// The prefix `pre` already parsed, put in front of the rest of a node
/// sequence parse.
pub open spec fn prepend_nodes(pre: Seq<NodeV>, r: (Result<Seq<NodeV>, Seq<char>>, int)) -> (Result<
    Seq<NodeV>,
    Seq<char>,
>, int) {
    (
        match r.0 {
            Ok(rest) => Ok(pre + rest),
            Err(m) => Err(m),
        },
        r.1,
    )
}

/// Reads nodes from token `start` until the current list or the input ends.
fn parse_nodes(tokens: &Vec<Token>, start: usize, depth: usize) -> (res: (Result<
    Vec<Node>,
    ParseError,
>, usize))
    requires
        depth <= start <= tokens@.len(),
    ensures
        ({
            let (r, j) = s_parse_nodes(token_views(tokens@), start as int, depth as nat);
            &&& res.1 == j
            &&& (match (res.0, r) {
                (Ok(ns), Ok(nvs)) => node_views(ns@) == nvs,
                (Err(e), Err(m)) => e@ == m,
                _ => false,
            })
        }),
    decreases tokens@.len() - start, 2nat,
{
    let ghost toks = token_views(tokens@);
    let mut items: Vec<Node> = Vec::new();
    let mut i: usize = start;
    proof {
        lemma_token_views_len(tokens@);
        let s0 = s_parse_nodes(toks, start as int, depth as nat);
        if s0.0 is Ok {
            assert(node_views(items@) + s0.0->Ok_0 =~= s0.0->Ok_0);
        }
    }
    loop
        invariant
            depth <= start <= i <= tokens@.len(),
            toks == token_views(tokens@),
            toks.len() == tokens@.len(),
            s_parse_nodes(toks, start as int, depth as nat) == prepend_nodes(
                node_views(items@),
                s_parse_nodes(toks, i as int, depth as nat),
            ),
        decreases tokens@.len() - i,
    {
        let ghost items_pre = items@;
        let (r, j) = parse_node(tokens, i, depth);
        proof {
            lemma_parse_node_progress(toks, i as int, depth as nat);
        }
        match r {
            Ok(o) => match o {
                Option::Some(node) => {
                    let ghost nv = node_view(node);
                    items.push(node);
                    proof {
                        lemma_node_views_push(items_pre, node);
                        let srem = s_parse_nodes(toks, j as int, depth as nat);
                        if srem.0 is Ok {
                            assert(node_views(items_pre) + (seq![nv] + srem.0->Ok_0)
                                =~= node_views(items@) + srem.0->Ok_0);
                        }
                    }
                    i = j;
                },
                Option::None => {
                    proof {
                        let srem = s_parse_nodes(toks, i as int, depth as nat);
                        assert(srem.0 == Ok::<Seq<NodeV>, Seq<char>>(Seq::empty()));
                        assert(node_views(items@) + Seq::<NodeV>::empty() =~= node_views(items@));
                    }
                    return (Ok(items), j);
                },
            },
            Err(e) => {
                return (Err(e), j);
            },
        }
    }
}

/// Turns a whole token stream into the syntax nodes it spells.
pub fn parse(tokens: &Vec<Token>) -> (r: Result<Vec<Node>, ParseError>)
    ensures
        (match (r, s_parse(token_views(tokens@))) {
            (Ok(ns), Ok(nvs)) => node_views(ns@) == nvs,
            (Err(e), Err(m)) => e@ == m,
            _ => false,
        }),
{
    let (r, _j) = parse_nodes(tokens, 0, 0);
    r
}

} // verus!
