//! The runtime value model: symbols, integers, booleans, text, lists and
//! procedures, together with the canonical textual rendering of a value.

use vstd::prelude::*;
use crate::numeral::{int_str, i64_to_string};
use crate::parser::{Node, NodeV, node_views};

verus! {

/// The builtin procedures installed into every root environment.
#[derive(Debug, PartialEq, Eq, Clone, Copy)]
pub enum Builtin {
    Define,
    Assign,
    Lambda,
    If,
    Plus,
    Minus,
    And,
    Or,
    ListOf,
    Quote,
    Quasiquote,
    Raise,
}

/// A procedure: either a native builtin or a user-defined one holding its
/// ordered parameter names and body nodes.
#[derive(Debug, PartialEq)]
pub enum Function {
    Native(Builtin),
    Scheme(Vec<String>, Vec<Node>),
}

/// A runtime value.
#[derive(Debug, PartialEq)]
pub enum Value {
    Symbol(String),
    Integer(i64),
    Boolean(bool),
    Text(String),
    List(Vec<Value>),
    Procedure(Function),
}

/// The mathematical image of a procedure.
pub enum FunctionV {
    Native(Builtin),
    Scheme(Seq<Seq<char>>, Seq<NodeV>),
}

/// The mathematical image of a runtime value.
pub enum ValueV {
    Symbol(Seq<char>),
    Integer(i64),
    Boolean(bool),
    Text(Seq<char>),
    List(Seq<ValueV>),
    Procedure(FunctionV),
}

/// The empty list, the canonical unit result.
pub open spec fn null_v() -> ValueV {
    ValueV::List(Seq::empty())
}

pub open spec fn str_views(s: Seq<String>) -> Seq<Seq<char>>
    decreases s.len(),
{
    if s.len() == 0 {
        Seq::empty()
    } else {
        seq![s[0]@] + str_views(s.subrange(1, s.len() as int))
    }
}

pub broadcast proof fn lemma_str_views_len(s: Seq<String>)
    ensures
        (#[trigger] str_views(s)).len() == s.len(),
    decreases s.len(),
{
    if s.len() != 0 {
        lemma_str_views_len(s.subrange(1, s.len() as int));
    }
}

pub broadcast proof fn lemma_str_views_index(s: Seq<String>, i: int)
    requires
        0 <= i < s.len(),
    ensures
        #[trigger] str_views(s)[i] == s[i]@,
    decreases s.len(),
{
    broadcast use lemma_str_views_len;

    if i > 0 {
        lemma_str_views_index(s.subrange(1, s.len() as int), i - 1);
    }
}

pub broadcast proof fn lemma_str_views_push(s: Seq<String>, x: String)
    ensures
        #[trigger] str_views(s.push(x)) == str_views(s).push(x@),
{
    broadcast use {lemma_str_views_len, lemma_str_views_index};

    assert forall|k: int| 0 <= k < s.len() + 1 implies str_views(s.push(x))[k] == str_views(s).push(
        x@,
    )[k] by {
        lemma_str_views_index(s.push(x), k);
        if k < s.len() {
            lemma_str_views_index(s, k);
        }
    }
    assert(str_views(s.push(x)) =~= str_views(s).push(x@));
}

pub open spec fn function_view(f: Function) -> FunctionV {
    match f {
        Function::Native(b) => FunctionV::Native(b),
        Function::Scheme(names, body) => FunctionV::Scheme(str_views(names@), node_views(body@)),
    }
}

pub open spec fn value_view(v: Value) -> ValueV
    decreases v,
{
    match v {
        Value::Symbol(s) => ValueV::Symbol(s@),
        Value::Integer(n) => ValueV::Integer(n),
        Value::Boolean(b) => ValueV::Boolean(b),
        Value::Text(s) => ValueV::Text(s@),
        Value::List(elems) => ValueV::List(value_views(elems@)),
        Value::Procedure(f) => ValueV::Procedure(function_view(f)),
    }
}

pub open spec fn value_views(s: Seq<Value>) -> Seq<ValueV>
    decreases s,
{
    if s.len() == 0 {
        Seq::empty()
    } else {
        seq![value_view(s[0])] + value_views(s.subrange(1, s.len() as int))
    }
}

pub broadcast proof fn lemma_value_views_len(s: Seq<Value>)
    ensures
        (#[trigger] value_views(s)).len() == s.len(),
    decreases s.len(),
{
    if s.len() != 0 {
        lemma_value_views_len(s.subrange(1, s.len() as int));
    }
}

pub broadcast proof fn lemma_value_views_index(s: Seq<Value>, i: int)
    requires
        0 <= i < s.len(),
    ensures
        #[trigger] value_views(s)[i] == value_view(s[i]),
    decreases s.len(),
{
    broadcast use lemma_value_views_len;

    if i > 0 {
        lemma_value_views_index(s.subrange(1, s.len() as int), i - 1);
    }
}

pub broadcast proof fn lemma_value_views_push(s: Seq<Value>, x: Value)
    ensures
        #[trigger] value_views(s.push(x)) == value_views(s).push(value_view(x)),
{
    broadcast use {lemma_value_views_len, lemma_value_views_index};

    assert forall|k: int| 0 <= k < s.len() + 1 implies value_views(s.push(x))[k] == value_views(
        s,
    ).push(value_view(x))[k] by {
        lemma_value_views_index(s.push(x), k);
        if k < s.len() {
            lemma_value_views_index(s, k);
        }
    }
    assert(value_views(s.push(x)) =~= value_views(s).push(value_view(x)));
}

/// The space-separated rendering of the elements after the first.
pub open spec fn raw_join_rest(elems: Seq<ValueV>) -> Seq<char>
    decreases elems, 1nat,
{
    if elems.len() == 0 {
        Seq::empty()
    } else {
        " "@ + raw_str(elems[0]) + raw_join_rest(elems.subrange(1, elems.len() as int))
    }
}

/// The space-separated rendering of a list's elements.
pub open spec fn raw_join(elems: Seq<ValueV>) -> Seq<char>
    decreases elems, 2nat,
{
    if elems.len() == 0 {
        Seq::empty()
    } else {
        raw_str(elems[0]) + raw_join_rest(elems.subrange(1, elems.len() as int))
    }
}

/// The unprefixed textual form of a value: integers in decimal, booleans as
/// `#t` / `#f`, text in double quotes, lists space-separated in parentheses,
/// procedures as an opaque placeholder.
pub open spec fn raw_str(v: ValueV) -> Seq<char>
    decreases v, 0nat,
{
    match v {
        ValueV::Symbol(s) => s,
        ValueV::Integer(n) => int_str(n as int),
        ValueV::Boolean(b) => if b {
            "#t"@
        } else {
            "#f"@
        },
        ValueV::Text(s) => "\""@ + s + "\""@,
        ValueV::List(elems) => "("@ + raw_join(elems) + ")"@,
        ValueV::Procedure(_) => "#<procedure>"@,
    }
}

/// The canonical textual form: symbols and lists carry a leading quote mark.
pub open spec fn render(v: ValueV) -> Seq<char> {
    match v {
        ValueV::Symbol(_) => "'"@ + raw_str(v),
        ValueV::List(_) => "'"@ + raw_str(v),
        _ => raw_str(v),
    }
}

impl Clone for Function {
    /// A deep copy; the copy has the same mathematical image.
    fn clone(&self) -> (r: Self)
        ensures
            function_view(r) == function_view(*self),
    {
        match self {
            Function::Native(b) => Function::Native(*b),
            Function::Scheme(names, body) => {
                let mut ns: Vec<String> = Vec::new();
                let mut i: usize = 0;
                while i < names.len()
                    invariant
                        i <= names@.len(),
                        str_views(ns@) == str_views(names@).subrange(0, i as int),
                    decreases names@.len() - i,
                {
                    let ghost ns_pre = ns@;
                    ns.push(names[i].clone());
                    i = i + 1;
                    proof {
                        lemma_str_views_len(names@);
                        lemma_str_views_push(ns_pre, names@[i - 1]);
                        lemma_str_views_index(names@, i - 1);
                        assert(str_views(names@).subrange(0, i as int) =~= str_views(
                            names@,
                        ).subrange(0, i - 1).push(str_views(names@)[i - 1]));
                    }
                }
                proof {
                    lemma_str_views_len(names@);
                    assert(str_views(names@).subrange(0, names@.len() as int) =~= str_views(
                        names@,
                    ));
                }
                let mut bs: Vec<Node> = Vec::new();
                let mut j: usize = 0;
                while j < body.len()
                    invariant
                        j <= body@.len(),
                        node_views(bs@) == node_views(body@).subrange(0, j as int),
                    decreases body@.len() - j,
                {
                    let ghost bs_pre = bs@;
                    let cl = body[j].clone();
                    let ghost cl_snap = cl;
                    bs.push(cl);
                    j = j + 1;
                    proof {
                        crate::parser::lemma_node_views_len(body@);
                        crate::parser::lemma_node_views_push(bs_pre, cl_snap);
                        crate::parser::lemma_node_views_index(body@, j - 1);
                        assert(node_views(body@).subrange(0, j as int) =~= node_views(
                            body@,
                        ).subrange(0, j - 1).push(node_views(body@)[j - 1]));
                    }
                }
                proof {
                    crate::parser::lemma_node_views_len(body@);
                    assert(node_views(body@).subrange(0, body@.len() as int) =~= node_views(
                        body@,
                    ));
                }
                Function::Scheme(ns, bs)
            },
        }
    }
}

impl Clone for Value {
    /// A deep copy; the copy has the same mathematical image.
    fn clone(&self) -> (r: Self)
        ensures
            value_view(r) == value_view(*self),
        decreases *self,
    {
        match self {
            Value::Symbol(s) => Value::Symbol(s.clone()),
            Value::Integer(n) => Value::Integer(*n),
            Value::Boolean(b) => Value::Boolean(*b),
            Value::Text(s) => Value::Text(s.clone()),
            Value::List(elems) => {
                let mut out: Vec<Value> = Vec::new();
                let mut i: usize = 0;
                while i < elems.len()
                    invariant
                        *self == Value::List(*elems),
                        i <= elems@.len(),
                        value_views(out@) == value_views(elems@).subrange(0, i as int),
                    decreases elems@.len() - i,
                {
                    proof {
                        assert(*elems == self->List_0);
                        assert(decreases_to!(*self => self->List_0));
                        assert(decreases_to!(*elems => elems@[i as int]));
                        assert(decreases_to!(*self => elems@[i as int]));
                    }
                    let ghost out_pre = out@;
                    let cl = elems[i].clone();
                    let ghost cl_snap = cl;
                    out.push(cl);
                    i = i + 1;
                    proof {
                        lemma_value_views_len(elems@);
                        lemma_value_views_push(out_pre, cl_snap);
                        lemma_value_views_index(elems@, i - 1);
                        assert(value_views(elems@).subrange(0, i as int) =~= value_views(
                            elems@,
                        ).subrange(0, i - 1).push(value_views(elems@)[i - 1]));
                    }
                }
                proof {
                    lemma_value_views_len(elems@);
                    assert(value_views(elems@).subrange(0, elems@.len() as int) =~= value_views(
                        elems@,
                    ));
                }
                Value::List(out)
            },
            Value::Procedure(f) => Value::Procedure(f.clone()),
        }
    }
}

/// Appending one more element extends the joined rendering by a space-
/// separated item (no space before the first).
proof fn lemma_raw_join_rest_snoc(s: Seq<ValueV>, v: ValueV)
    ensures
        raw_join_rest(s.push(v)) == raw_join_rest(s) + " "@ + raw_str(v),
    decreases s.len(),
{
    if s.len() == 0 {
        assert(s.push(v).len() == 1);
        assert(s.push(v)[0] == v);
        assert(s.push(v).subrange(1, s.push(v).len() as int) =~= Seq::empty());
        assert(raw_join_rest(Seq::<ValueV>::empty()) =~= Seq::empty());
        assert(raw_join_rest(s) =~= Seq::empty());
        assert(raw_join_rest(s.push(v)) =~= raw_join_rest(s) + " "@ + raw_str(v));
    } else {
        lemma_raw_join_rest_snoc(s.subrange(1, s.len() as int), v);
        assert(s.push(v).subrange(1, s.push(v).len() as int) =~= s.subrange(
            1,
            s.len() as int,
        ).push(v));
        assert(raw_join_rest(s.push(v)) =~= raw_join_rest(s) + " "@ + raw_str(v));
    }
}

proof fn lemma_raw_join_snoc(s: Seq<ValueV>, v: ValueV)
    ensures
        s.len() == 0 ==> raw_join(s.push(v)) == raw_str(v),
        s.len() > 0 ==> raw_join(s.push(v)) == raw_join(s) + " "@ + raw_str(v),
{
    if s.len() == 0 {
        assert(s.push(v).subrange(1, s.push(v).len() as int) =~= Seq::empty());
        assert(raw_join(s.push(v)) =~= raw_str(v));
    } else {
        lemma_raw_join_rest_snoc(s.subrange(1, s.len() as int), v);
        assert(s.push(v).subrange(1, s.push(v).len() as int) =~= s.subrange(
            1,
            s.len() as int,
        ).push(v));
        assert(raw_join(s.push(v)) =~= raw_join(s) + " "@ + raw_str(v));
    }
}

impl Value {
    /// The unprefixed rendering of this value.
    pub fn to_raw_str(&self) -> (s: String)
        ensures
            s@ == raw_str(value_view(*self)),
        decreases *self,
    {
        match self {
            Value::Symbol(name) => {
                let mut s = String::new();
                s.append(name.as_str());
                s
            },
            Value::Integer(n) => i64_to_string(*n),
            Value::Boolean(b) => {
                if *b {
                    String::from_str("#t")
                } else {
                    String::from_str("#f")
                }
            },
            Value::Text(t) => {
                let mut s = String::from_str("\"");
                s.append(t.as_str());
                s.append("\"");
                s
            },
            Value::List(elems) => {
                let mut s = String::from_str("(");
                let mut i: usize = 0;
                while i < elems.len()
                    invariant
                        *self == Value::List(*elems),
                        i <= elems@.len(),
                        s@ == "("@ + raw_join(value_views(elems@).subrange(0, i as int)),
                    decreases elems@.len() - i,
                {
                    proof {
                        lemma_value_views_len(elems@);
                        lemma_value_views_index(elems@, i as int);
                        assert(*elems == self->List_0);
                        assert(decreases_to!(*self => self->List_0));
                        assert(decreases_to!(*elems => elems@[i as int]));
                        assert(decreases_to!(*self => elems@[i as int]));
                    }
                    if i > 0 {
                        s.append(" ");
                    }
                    let piece = elems[i].to_raw_str();
                    s.append(piece.as_str());
                    i = i + 1;
                    proof {
                        let evs = value_views(elems@);
                        lemma_raw_join_snoc(evs.subrange(0, i - 1), evs[i - 1]);
                        assert(evs.subrange(0, i as int) =~= evs.subrange(0, i - 1).push(
                            evs[i - 1],
                        ));
                        assert(s@ =~= "("@ + raw_join(evs.subrange(0, i as int)));
                    }
                }
                s.append(")");
                proof {
                    lemma_value_views_len(elems@);
                    assert(value_views(elems@).subrange(0, elems@.len() as int) =~= value_views(
                        elems@,
                    ));
                    assert(s@ =~= raw_str(value_view(*self)));
                }
                s
            },
            Value::Procedure(_) => String::from_str("#<procedure>"),
        }
    }

    /// The canonical rendering: symbols and lists get a leading quote mark.
    pub fn to_str(&self) -> (s: String)
        ensures
            s@ == render(value_view(*self)),
    {
        match self {
            Value::Symbol(_) => {
                let mut s = String::from_str("'");
                let raw = self.to_raw_str();
                s.append(raw.as_str());
                s
            },
            Value::List(_) => {
                let mut s = String::from_str("'");
                let raw = self.to_raw_str();
                s.append(raw.as_str());
                s
            },
            _ => self.to_raw_str(),
        }
    }
}

} // verus!
