//! The evaluator: reduces syntax nodes to runtime values in an environment
//! chain, dispatching special forms and ordinary procedure application.
//!
//! The whole evaluation is specified twice: once as a family of spec
//! functions over the mathematical images of nodes, values and frames
//! (`s_eval_node` and friends), and once as executable code.  Each
//! executable function's contract states that it computes exactly what the
//! spec-level interpreter computes.  Evaluation is bounded by a fuel that
//! shrinks with every nested call; a program nested deeper than the bound
//! fails with an error rather than exhausting the call stack.

use vstd::prelude::*;
use crate::numeral::{dec_digits, u64_to_string};
use crate::parser::{
    Node, NodeV, node_view, node_views, lemma_node_views_len, lemma_node_views_index,
    lemma_node_views_push,
};
use crate::value::{
    Builtin, Function, FunctionV, Value, ValueV, function_view, value_view, value_views, null_v,
    render, str_views, lemma_str_views_len, lemma_str_views_index, lemma_str_views_push,
    lemma_value_views_len, lemma_value_views_index, lemma_value_views_push,
};
use crate::env::{
    Environment, FrameV, chain_lookup, chain_has, frame_has, frame_set, root_state,
};

verus! {

/// How deeply nested an evaluation may be before it is cut off.
pub const EVAL_FUEL: u64 = 10000;

/// A failure during evaluation, carrying a human-readable message.
#[derive(Debug)]
pub struct RuntimeError {
    message: String,
}

impl View for RuntimeError {
    type V = Seq<char>;

    closed spec fn view(&self) -> Seq<char> {
        self.message@
    }
}

impl RuntimeError {
    /// The rendered form of the error, as shown to a user.
    pub fn to_str(&self) -> (s: String)
        ensures
            s@ == "RuntimeError: "@ + self@,
    {
        let mut s = String::from_str("RuntimeError: ");
        s.append(self.message.as_str());
        s
    }

    /// The bare message text.
    pub fn message(&self) -> (s: &String)
        ensures
            s@ == self@,
    {
        &self.message
    }
}

pub open spec fn msg_depth() -> Seq<char> {
    "Maximum recursion depth exceeded"@
}

pub open spec fn msg_unbound(name: Seq<char>) -> Seq<char> {
    "Identifier not found: "@ + name
}

pub open spec fn msg_fn_arity(n: nat) -> Seq<char> {
    "Must supply exactly "@ + dec_digits(n) + " arguments to function"@
}

pub open spec fn msg_dup_define(name: Seq<char>) -> Seq<char> {
    "Duplicate define: "@ + name
}

pub open spec fn msg_set_unbound(name: Seq<char>) -> Seq<char> {
    "Can't set! an undefined variable: "@ + name
}

/// Does the executable result carry exactly the value or message of the
/// spec-level result?
pub open spec fn res_matches(r: Result<Value, RuntimeError>, rv: Result<ValueV, Seq<char>>) -> bool {
    match (r, rv) {
        (Ok(v), Ok(vv)) => value_view(v) == vv,
        (Err(e), Err(m)) => e@ == m,
        _ => false,
    }
}

/// Inserting `name = v` into frame `e` of the arena.
pub open spec fn env_insert(fs: Seq<FrameV>, e: int, name: Seq<char>, v: ValueV) -> Seq<FrameV> {
    fs.update(e, FrameV { parent: fs[e].parent, vars: frame_set(fs[e].vars, name, v) })
}

/// One node: identifiers are looked up, literals stand for themselves, a
/// non-empty list is an expression, the empty list is the empty-list value.
pub open spec fn s_eval_node(fs: Seq<FrameV>, e: int, n: NodeV, fuel: nat) -> (Seq<FrameV>, Result<
    ValueV,
    Seq<char>,
>)
    decreases fuel, 0nat, 0nat,
{
    if fuel == 0 {
        (fs, Err(msg_depth()))
    } else {
        match n {
            NodeV::Identifier(name) => match chain_lookup(fs, e, name) {
                Option::Some(v) => (fs, Ok(v)),
                Option::None => (fs, Err(msg_unbound(name))),
            },
            NodeV::Integer(x) => (fs, Ok(ValueV::Integer(x))),
            NodeV::Boolean(b) => (fs, Ok(ValueV::Boolean(b))),
            NodeV::Text(s) => (fs, Ok(ValueV::Text(s))),
            NodeV::List(elems) => if elems.len() > 0 {
                s_eval_expr(fs, e, elems, (fuel - 1) as nat)
            } else {
                (fs, Ok(null_v()))
            },
        }
    }
}

/// A non-empty list: the first element must reduce to a procedure, which is
/// applied to the remaining, unevaluated nodes.
pub open spec fn s_eval_expr(fs: Seq<FrameV>, e: int, elems: Seq<NodeV>, fuel: nat) -> (Seq<
    FrameV,
>, Result<ValueV, Seq<char>>)
    decreases fuel, 0nat, 0nat,
{
    if fuel == 0 {
        (fs, Err(msg_depth()))
    } else if elems.len() == 0 {
        (fs, Err("Can't evaluate an empty expression"@))
    } else {
        let (fs1, r) = s_eval_node(fs, e, elems[0], (fuel - 1) as nat);
        match r {
            Ok(v) => match v {
                ValueV::Procedure(f) => s_apply(
                    fs1,
                    e,
                    f,
                    elems.subrange(1, elems.len() as int),
                    (fuel - 1) as nat,
                ),
                _ => (fs1, Err("First element in an expression must be a procedure"@)),
            },
            Err(m) => (fs1, Err(m)),
        }
    }
}

/// Binding a user procedure's arguments one by one: each argument node is
/// evaluated in the caller's frame `e` and bound in the fresh frame `c`.
pub open spec fn s_bind_args(
    fs: Seq<FrameV>,
    e: int,
    c: int,
    params: Seq<Seq<char>>,
    args: Seq<NodeV>,
    fuel: nat,
) -> (Seq<FrameV>, Result<(), Seq<char>>)
    decreases fuel, 1nat, params.len(),
{
    if fuel == 0 {
        (fs, Err(msg_depth()))
    } else if params.len() == 0 || args.len() == 0 {
        (fs, Ok(()))
    } else {
        let (fs1, r) = s_eval_node(fs, e, args[0], (fuel - 1) as nat);
        match r {
            Ok(v) => {
                let fs2 = env_insert(fs1, c, params[0], v);
                s_bind_args(
                    fs2,
                    e,
                    c,
                    params.subrange(1, params.len() as int),
                    args.subrange(1, args.len() as int),
                    fuel,
                )
            },
            Err(m) => (fs1, Err(m)),
        }
    }
}

/// Applying a procedure: a native one receives the raw nodes; a user one
/// gets a fresh child frame of the caller's, its arguments evaluated and
/// bound there, and its body evaluated in that frame.
pub open spec fn s_apply(fs: Seq<FrameV>, e: int, f: FunctionV, args: Seq<NodeV>, fuel: nat) -> (
    Seq<FrameV>,
    Result<ValueV, Seq<char>>,
)
    decreases fuel, 2nat, 0nat,
{
    if fuel == 0 {
        (fs, Err(msg_depth()))
    } else {
        match f {
            FunctionV::Native(b) => s_native(fs, e, b, args, (fuel - 1) as nat),
            FunctionV::Scheme(params, body) => {
                if params.len() != args.len() {
                    (fs, Err(msg_fn_arity(params.len())))
                } else {
                    let c = fs.len() as int;
                    let fs1 = fs.push(FrameV { parent: Option::Some(e), vars: Seq::empty() });
                    let (fs2, r) = s_bind_args(fs1, e, c, params, args, fuel);
                    match r {
                        Ok(u) => s_eval_nodes(fs2, c, body, (fuel - 1) as nat),
                        Err(m) => (fs2, Err(m)),
                    }
                }
            },
        }
    }
}

/// A node sequence evaluated for effect, keeping the last value; `acc` is
/// what an empty rest yields.
pub open spec fn s_eval_nodes_from(
    fs: Seq<FrameV>,
    e: int,
    ns: Seq<NodeV>,
    fuel: nat,
    acc: ValueV,
) -> (Seq<FrameV>, Result<ValueV, Seq<char>>)
    decreases fuel, 1nat, ns.len(),
{
    if fuel == 0 {
        (fs, Err(msg_depth()))
    } else if ns.len() == 0 {
        (fs, Ok(acc))
    } else {
        let (fs1, r) = s_eval_node(fs, e, ns[0], (fuel - 1) as nat);
        match r {
            Ok(v) => s_eval_nodes_from(fs1, e, ns.subrange(1, ns.len() as int), fuel, v),
            Err(m) => (fs1, Err(m)),
        }
    }
}

/// A whole sequence of nodes; the empty sequence yields the empty list.
pub open spec fn s_eval_nodes(fs: Seq<FrameV>, e: int, ns: Seq<NodeV>, fuel: nat) -> (Seq<
    FrameV,
>, Result<ValueV, Seq<char>>)
    decreases fuel, 2nat, 0nat,
{
    s_eval_nodes_from(fs, e, ns, fuel, null_v())
}

/// The parameter names of a lambda form: every item must be an identifier.
pub open spec fn s_param_names(items: Seq<NodeV>) -> Result<Seq<Seq<char>>, Seq<char>>
    decreases items.len(),
{
    if items.len() == 0 {
        Ok(Seq::empty())
    } else {
        match items[0] {
            NodeV::Identifier(s) => match s_param_names(items.subrange(1, items.len() as int)) {
                Ok(rest) => Ok(seq![s] + rest),
                Err(m) => Err(m),
            },
            _ => Err("Unexpected argument in lambda arguments"@),
        }
    }
}

pub open spec fn s_native_define(fs: Seq<FrameV>, e: int, args: Seq<NodeV>, fuel: nat) -> (Seq<
    FrameV,
>, Result<ValueV, Seq<char>>)
    decreases fuel, 0nat, 0nat,
{
    if fuel == 0 {
        (fs, Err(msg_depth()))
    } else if args.len() != 2 {
        (fs, Err("Must supply exactly two arguments to define"@))
    } else {
        match args[0] {
            NodeV::Identifier(name) => if !frame_has(fs[e].vars, name) {
                let (fs1, r) = s_eval_node(fs, e, args[1], (fuel - 1) as nat);
                match r {
                    Ok(v) => (env_insert(fs1, e, name, v), Ok(null_v())),
                    Err(m) => (fs1, Err(m)),
                }
            } else {
                (fs, Err(msg_dup_define(name)))
            },
            _ => (fs, Err("Unexpected node for name in define"@)),
        }
    }
}

pub open spec fn s_native_assign(fs: Seq<FrameV>, e: int, args: Seq<NodeV>, fuel: nat) -> (Seq<
    FrameV,
>, Result<ValueV, Seq<char>>)
    decreases fuel, 0nat, 0nat,
{
    if fuel == 0 {
        (fs, Err(msg_depth()))
    } else if args.len() != 2 {
        (fs, Err("Must supply exactly two arguments to set!"@))
    } else {
        match args[0] {
            NodeV::Identifier(name) => if chain_has(fs, e, name) {
                let (fs1, r) = s_eval_node(fs, e, args[1], (fuel - 1) as nat);
                match r {
                    Ok(v) => (env_insert(fs1, e, name, v), Ok(null_v())),
                    Err(m) => (fs1, Err(m)),
                }
            } else {
                (fs, Err(msg_set_unbound(name)))
            },
            _ => (fs, Err("Unexpected node for name in set!"@)),
        }
    }
}

pub open spec fn s_native_lambda(fs: Seq<FrameV>, e: int, args: Seq<NodeV>, fuel: nat) -> (Seq<
    FrameV,
>, Result<ValueV, Seq<char>>)
    decreases fuel, 0nat, 0nat,
{
    if fuel == 0 {
        (fs, Err(msg_depth()))
    } else if args.len() < 2 {
        (fs, Err("Must supply at least two arguments to lambda"@))
    } else {
        match args[0] {
            NodeV::List(items) => match s_param_names(items) {
                Ok(names) => (
                    fs,
                    Ok(
                        ValueV::Procedure(
                            FunctionV::Scheme(names, args.subrange(1, args.len() as int)),
                        ),
                    ),
                ),
                Err(m) => (fs, Err(m)),
            },
            _ => (fs, Err("Unexpected node for arguments in lambda"@)),
        }
    }
}

pub open spec fn s_native_if(fs: Seq<FrameV>, e: int, args: Seq<NodeV>, fuel: nat) -> (Seq<
    FrameV,
>, Result<ValueV, Seq<char>>)
    decreases fuel, 0nat, 0nat,
{
    if fuel == 0 {
        (fs, Err(msg_depth()))
    } else if args.len() != 3 {
        (fs, Err("Must supply exactly three arguments to if"@))
    } else {
        let (fs1, r) = s_eval_node(fs, e, args[0], (fuel - 1) as nat);
        match r {
            Ok(v) => if v == ValueV::Boolean(false) {
                s_eval_node(fs1, e, args[2], (fuel - 1) as nat)
            } else {
                s_eval_node(fs1, e, args[1], (fuel - 1) as nat)
            },
            Err(m) => (fs1, Err(m)),
        }
    }
}

/// Summing arguments left to right with wrap-around machine arithmetic.
pub open spec fn s_plus_loop(fs: Seq<FrameV>, e: int, args: Seq<NodeV>, fuel: nat, acc: i64) -> (
    Seq<FrameV>,
    Result<ValueV, Seq<char>>,
)
    decreases fuel, 0nat, args.len(),
{
    if fuel == 0 {
        (fs, Err(msg_depth()))
    } else if args.len() == 0 {
        (fs, Ok(ValueV::Integer(acc)))
    } else {
        let (fs1, r) = s_eval_node(fs, e, args[0], (fuel - 1) as nat);
        match r {
            Ok(v) => match v {
                ValueV::Integer(x) => s_plus_loop(
                    fs1,
                    e,
                    args.subrange(1, args.len() as int),
                    fuel,
                    vstd::wrapping::i64_specs::wrapping_add(acc, x),
                ),
                _ => (fs1, Err("Unexpected node during +"@)),
            },
            Err(m) => (fs1, Err(m)),
        }
    }
}

pub open spec fn s_native_plus(fs: Seq<FrameV>, e: int, args: Seq<NodeV>, fuel: nat) -> (Seq<
    FrameV,
>, Result<ValueV, Seq<char>>)
    decreases fuel, 1nat, 0nat,
{
    if fuel == 0 {
        (fs, Err(msg_depth()))
    } else if args.len() < 2 {
        (fs, Err("Must supply at least two arguments to +"@))
    } else {
        s_plus_loop(fs, e, args, fuel, 0)
    }
}

pub open spec fn s_native_minus(fs: Seq<FrameV>, e: int, args: Seq<NodeV>, fuel: nat) -> (Seq<
    FrameV,
>, Result<ValueV, Seq<char>>)
    decreases fuel, 0nat, 0nat,
{
    if fuel == 0 {
        (fs, Err(msg_depth()))
    } else if args.len() != 2 {
        (fs, Err("Must supply exactly two arguments to -"@))
    } else {
        let (fs1, r1) = s_eval_node(fs, e, args[0], (fuel - 1) as nat);
        match r1 {
            Ok(l) => {
                let (fs2, r2) = s_eval_node(fs1, e, args[1], (fuel - 1) as nat);
                match r2 {
                    Ok(r) => match l {
                        ValueV::Integer(x) => match r {
                            ValueV::Integer(y) => (
                                fs2,
                                Ok(ValueV::Integer(vstd::wrapping::i64_specs::wrapping_sub(x, y))),
                            ),
                            _ => (fs2, Err("Unexpected node during -"@)),
                        },
                        _ => (fs2, Err("Unexpected node during -"@)),
                    },
                    Err(m) => (fs2, Err(m)),
                }
            },
            Err(m) => (fs1, Err(m)),
        }
    }
}

/// `and`: short-circuits on the first false value, else keeps the last.
pub open spec fn s_and_loop(fs: Seq<FrameV>, e: int, args: Seq<NodeV>, fuel: nat, acc: ValueV) -> (
    Seq<FrameV>,
    Result<ValueV, Seq<char>>,
)
    decreases fuel, 0nat, args.len(),
{
    if fuel == 0 {
        (fs, Err(msg_depth()))
    } else if args.len() == 0 {
        (fs, Ok(acc))
    } else {
        let (fs1, r) = s_eval_node(fs, e, args[0], (fuel - 1) as nat);
        match r {
            Ok(v) => if v == ValueV::Boolean(false) {
                (fs1, Ok(ValueV::Boolean(false)))
            } else {
                s_and_loop(fs1, e, args.subrange(1, args.len() as int), fuel, v)
            },
            Err(m) => (fs1, Err(m)),
        }
    }
}

pub open spec fn s_native_and(fs: Seq<FrameV>, e: int, args: Seq<NodeV>, fuel: nat) -> (Seq<
    FrameV,
>, Result<ValueV, Seq<char>>)
    decreases fuel, 1nat, 0nat,
{
    if fuel == 0 {
        (fs, Err(msg_depth()))
    } else {
        s_and_loop(fs, e, args, fuel, ValueV::Boolean(true))
    }
}

/// `or`: keeps the first non-false value, else false.
pub open spec fn s_or_loop(fs: Seq<FrameV>, e: int, args: Seq<NodeV>, fuel: nat) -> (
    Seq<FrameV>,
    Result<ValueV, Seq<char>>,
)
    decreases fuel, 0nat, args.len(),
{
    if fuel == 0 {
        (fs, Err(msg_depth()))
    } else if args.len() == 0 {
        (fs, Ok(ValueV::Boolean(false)))
    } else {
        let (fs1, r) = s_eval_node(fs, e, args[0], (fuel - 1) as nat);
        match r {
            Ok(v) => if v == ValueV::Boolean(false) {
                s_or_loop(fs1, e, args.subrange(1, args.len() as int), fuel)
            } else {
                (fs1, Ok(v))
            },
            Err(m) => (fs1, Err(m)),
        }
    }
}

pub open spec fn s_native_or(fs: Seq<FrameV>, e: int, args: Seq<NodeV>, fuel: nat) -> (Seq<
    FrameV,
>, Result<ValueV, Seq<char>>)
    decreases fuel, 1nat, 0nat,
{
    if fuel == 0 {
        (fs, Err(msg_depth()))
    } else {
        s_or_loop(fs, e, args, fuel)
    }
}

/// `list`: evaluates every argument and collects the values in order.
pub open spec fn s_list_loop(
    fs: Seq<FrameV>,
    e: int,
    args: Seq<NodeV>,
    fuel: nat,
    acc: Seq<ValueV>,
) -> (Seq<FrameV>, Result<ValueV, Seq<char>>)
    decreases fuel, 0nat, args.len(),
{
    if fuel == 0 {
        (fs, Err(msg_depth()))
    } else if args.len() == 0 {
        (fs, Ok(ValueV::List(acc)))
    } else {
        let (fs1, r) = s_eval_node(fs, e, args[0], (fuel - 1) as nat);
        match r {
            Ok(v) => s_list_loop(fs1, e, args.subrange(1, args.len() as int), fuel, acc.push(v)),
            Err(m) => (fs1, Err(m)),
        }
    }
}

pub open spec fn s_native_list(fs: Seq<FrameV>, e: int, args: Seq<NodeV>, fuel: nat) -> (Seq<
    FrameV,
>, Result<ValueV, Seq<char>>)
    decreases fuel, 1nat, 0nat,
{
    if fuel == 0 {
        (fs, Err(msg_depth()))
    } else {
        s_list_loop(fs, e, args, fuel, Seq::empty())
    }
}

/// Quoting one element list of a quasiquote escape.
pub open spec fn is_unquote_form(elems: Seq<NodeV>) -> bool {
    elems.len() > 0 && elems[0] == NodeV::Identifier("unquote"@)
}

/// Quoting: identifiers become symbols, literals stay themselves, lists
/// recurse; in quasi-mode an `(unquote x)` list escapes back to evaluation.
pub open spec fn s_quote(fs: Seq<FrameV>, e: int, n: NodeV, quasi: bool, fuel: nat) -> (Seq<
    FrameV,
>, Result<ValueV, Seq<char>>)
    decreases fuel, 2nat, 0nat,
{
    if fuel == 0 {
        (fs, Err(msg_depth()))
    } else {
        match n {
            NodeV::Identifier(name) => (fs, Ok(ValueV::Symbol(name))),
            NodeV::Integer(x) => (fs, Ok(ValueV::Integer(x))),
            NodeV::Boolean(b) => (fs, Ok(ValueV::Boolean(b))),
            NodeV::Text(s) => (fs, Ok(ValueV::Text(s))),
            NodeV::List(elems) => if quasi && is_unquote_form(elems) {
                if elems.len() != 2 {
                    (fs, Err("Must supply exactly one argument to unquote"@))
                } else {
                    s_eval_node(fs, e, elems[1], (fuel - 1) as nat)
                }
            } else {
                s_quote_list(fs, e, elems, quasi, fuel, Seq::empty())
            },
        }
    }
}

pub open spec fn s_quote_list(
    fs: Seq<FrameV>,
    e: int,
    elems: Seq<NodeV>,
    quasi: bool,
    fuel: nat,
    acc: Seq<ValueV>,
) -> (Seq<FrameV>, Result<ValueV, Seq<char>>)
    decreases fuel, 1nat, elems.len(),
{
    if fuel == 0 {
        (fs, Err(msg_depth()))
    } else if elems.len() == 0 {
        (fs, Ok(ValueV::List(acc)))
    } else {
        let (fs1, r) = s_quote(fs, e, elems[0], quasi, (fuel - 1) as nat);
        match r {
            Ok(v) => s_quote_list(
                fs1,
                e,
                elems.subrange(1, elems.len() as int),
                quasi,
                fuel,
                acc.push(v),
            ),
            Err(m) => (fs1, Err(m)),
        }
    }
}

pub open spec fn s_native_quote(fs: Seq<FrameV>, e: int, args: Seq<NodeV>, fuel: nat) -> (Seq<
    FrameV,
>, Result<ValueV, Seq<char>>)
    decreases fuel, 0nat, 0nat,
{
    if fuel == 0 {
        (fs, Err(msg_depth()))
    } else if args.len() != 1 {
        (fs, Err("Must supply exactly one argument to quote"@))
    } else {
        s_quote(fs, e, args[0], false, (fuel - 1) as nat)
    }
}

pub open spec fn s_native_quasiquote(fs: Seq<FrameV>, e: int, args: Seq<NodeV>, fuel: nat) -> (Seq<
    FrameV,
>, Result<ValueV, Seq<char>>)
    decreases fuel, 0nat, 0nat,
{
    if fuel == 0 {
        (fs, Err(msg_depth()))
    } else if args.len() != 1 {
        (fs, Err("Must supply exactly one argument to quasiquote"@))
    } else {
        s_quote(fs, e, args[0], true, (fuel - 1) as nat)
    }
}

/// `error`: evaluates its argument and fails with the value's rendering.
pub open spec fn s_native_raise(fs: Seq<FrameV>, e: int, args: Seq<NodeV>, fuel: nat) -> (Seq<
    FrameV,
>, Result<ValueV, Seq<char>>)
    decreases fuel, 0nat, 0nat,
{
    if fuel == 0 {
        (fs, Err(msg_depth()))
    } else if args.len() != 1 {
        (fs, Err("Must supply exactly one arguments to error"@))
    } else {
        let (fs1, r) = s_eval_node(fs, e, args[0], (fuel - 1) as nat);
        match r {
            Ok(v) => (fs1, Err(render(v))),
            Err(m) => (fs1, Err(m)),
        }
    }
}

/// Dispatch over the builtin procedures.
pub open spec fn s_native(fs: Seq<FrameV>, e: int, b: Builtin, args: Seq<NodeV>, fuel: nat) -> (
    Seq<FrameV>,
    Result<ValueV, Seq<char>>,
)
    decreases fuel, 3nat, 0nat,
{
    match b {
        Builtin::Define => s_native_define(fs, e, args, fuel),
        Builtin::Assign => s_native_assign(fs, e, args, fuel),
        Builtin::Lambda => s_native_lambda(fs, e, args, fuel),
        Builtin::If => s_native_if(fs, e, args, fuel),
        Builtin::Plus => s_native_plus(fs, e, args, fuel),
        Builtin::Minus => s_native_minus(fs, e, args, fuel),
        Builtin::And => s_native_and(fs, e, args, fuel),
        Builtin::Or => s_native_or(fs, e, args, fuel),
        Builtin::ListOf => s_native_list(fs, e, args, fuel),
        Builtin::Quote => s_native_quote(fs, e, args, fuel),
        Builtin::Quasiquote => s_native_quasiquote(fs, e, args, fuel),
        Builtin::Raise => s_native_raise(fs, e, args, fuel),
    }
}

/// The whole run: a fresh root environment, then the node sequence.
pub open spec fn s_interpret(ns: Seq<NodeV>) -> Result<ValueV, Seq<char>> {
    s_eval_nodes(root_state(), 0, ns, EVAL_FUEL as nat).1
}

fn err_str(text: &str) -> (err: RuntimeError)
    ensures
        err@ == text@,
{
    RuntimeError { message: String::from_str(text) }
}

fn err_with_name(prefix: &str, name: &String) -> (err: RuntimeError)
    ensures
        err@ == prefix@ + name@,
{
    let mut m = String::from_str(prefix);
    m.append(name.as_str());
    RuntimeError { message: m }
}

fn err_arity(n: usize) -> (err: RuntimeError)
    ensures
        err@ == msg_fn_arity(n as nat),
{
    let mut m = String::from_str("Must supply exactly ");
    let d = u64_to_string(n as u64);
    m.append(d.as_str());
    m.append(" arguments to function");
    RuntimeError { message: m }
}

/// Is this value the boolean false, the one falsy value of the language?
fn value_is_false(v: &Value) -> (b: bool)
    ensures
        b == (value_view(*v) == ValueV::Boolean(false)),
{
    match v {
        Value::Boolean(x) => !*x,
        _ => false,
    }
}

/// The empty-list value.
fn null_value() -> (v: Value)
    ensures
        value_view(v) == null_v(),
{
    let v = Value::List(Vec::new());
    proof {
        assert(value_views(Seq::<Value>::empty()) =~= Seq::<ValueV>::empty());
    }
    v
}

/// A copy of the nodes from `start` on, used for the unevaluated argument
/// list of an application and for a lambda's body.
fn clone_tail(nodes: &Vec<Node>, start: usize) -> (out: Vec<Node>)
    requires
        start <= nodes@.len(),
    ensures
        node_views(out@) == node_views(nodes@).subrange(start as int, nodes@.len() as int),
{
    broadcast use {lemma_node_views_len, lemma_node_views_index, lemma_node_views_push};

    let ghost whole = node_views(nodes@);
    let mut out: Vec<Node> = Vec::new();
    let mut i: usize = start;
    proof {
        lemma_node_views_len(nodes@);
        assert(node_views(out@) =~= whole.subrange(start as int, start as int));
    }
    while i < nodes.len()
        invariant
            start <= i <= nodes@.len(),
            whole == node_views(nodes@),
            whole.len() == nodes@.len(),
            node_views(out@) == whole.subrange(start as int, i as int),
        decreases nodes@.len() - i,
    {
        let ghost out_pre = out@;
        let cl = nodes[i].clone();
        let ghost cl_snap = cl;
        out.push(cl);
        i = i + 1;
        proof {
            lemma_node_views_push(out_pre, cl_snap);
            lemma_node_views_index(nodes@, i - 1);
            assert(whole.subrange(start as int, i as int) =~= whole.subrange(
                start as int,
                i - 1,
            ).push(whole[i - 1]));
        }
    }
    proof {
        assert(node_views(out@) =~= whole.subrange(start as int, nodes@.len() as int));
    }
    out
}

/// Evaluates one syntax node in frame `e`, exactly as the mathematical
/// interpreter does.
pub fn evaluate_node(env: &mut Environment, e: usize, n: &Node, fuel: u64) -> (r: Result<
    Value,
    RuntimeError,
>)
    requires
        old(env).wf(),
        e < old(env)@.len(),
    ensures
        final(env).wf(),
        old(env)@.len() <= final(env)@.len(),
        ({
            let sr = s_eval_node(old(env)@, e as int, node_view(*n), fuel as nat);
            final(env)@ == sr.0 && res_matches(r, sr.1)
        }),
    decreases fuel as nat, 0nat, 0nat,
{
    if fuel == 0 {
        return Err(err_str("Maximum recursion depth exceeded"));
    }
    match n {
        Node::Identifier(name) => match env.lookup(e, name) {
            Option::Some(v) => Ok(v),
            Option::None => Err(err_with_name("Identifier not found: ", name)),
        },
        Node::Integer(x) => Ok(Value::Integer(*x)),
        Node::Boolean(b) => Ok(Value::Boolean(*b)),
        Node::Text(s) => Ok(Value::Text(s.clone())),
        Node::List(elems) => {
            if elems.len() > 0 {
                evaluate_expression(env, e, elems, fuel - 1)
            } else {
                proof {
                    crate::parser::lemma_node_views_len(elems@);
                }
                Ok(null_value())
            }
        },
    }
}

/// Evaluates a non-empty expression list: the head must reduce to a
/// procedure, which is applied to the unevaluated tail.
pub fn evaluate_expression(env: &mut Environment, e: usize, nodes: &Vec<Node>, fuel: u64) -> (r:
    Result<Value, RuntimeError>)
    requires
        old(env).wf(),
        e < old(env)@.len(),
    ensures
        final(env).wf(),
        old(env)@.len() <= final(env)@.len(),
        ({
            let sr = s_eval_expr(old(env)@, e as int, node_views(nodes@), fuel as nat);
            final(env)@ == sr.0 && res_matches(r, sr.1)
        }),
    decreases fuel as nat, 0nat, 0nat,
{
    broadcast use {lemma_node_views_len, lemma_node_views_index};

    if fuel == 0 {
        return Err(err_str("Maximum recursion depth exceeded"));
    }
    if nodes.len() == 0 {
        return Err(err_str("Can't evaluate an empty expression"));
    }
    let ghost elems = node_views(nodes@);
    let first = evaluate_node(env, e, &nodes[0], fuel - 1);
    match first {
        Ok(v) => match v {
            Value::Procedure(f) => {
                let args = clone_tail(nodes, 1);
                apply_function(env, e, &f, &args, fuel - 1)
            },
            _ => Err(err_str("First element in an expression must be a procedure")),
        },
        Err(er) => Err(er),
    }
}

/// Applies a procedure to unevaluated argument nodes.
pub fn apply_function(env: &mut Environment, e: usize, f: &Function, args: &Vec<Node>, fuel: u64)
    -> (r: Result<Value, RuntimeError>)
    requires
        old(env).wf(),
        e < old(env)@.len(),
    ensures
        final(env).wf(),
        old(env)@.len() <= final(env)@.len(),
        ({
            let sr = s_apply(old(env)@, e as int, function_view(*f), node_views(args@), fuel as nat);
            final(env)@ == sr.0 && res_matches(r, sr.1)
        }),
    decreases fuel as nat, 2nat, 0nat,
{
    broadcast use {lemma_node_views_len, lemma_node_views_index, lemma_str_views_len, lemma_str_views_index};

    if fuel == 0 {
        return Err(err_str("Maximum recursion depth exceeded"));
    }
    match f {
        Function::Native(b) => match b {
            Builtin::Define => native_define(env, e, args, fuel - 1),
            Builtin::Assign => native_assign(env, e, args, fuel - 1),
            Builtin::Lambda => native_lambda(env, e, args, fuel - 1),
            Builtin::If => native_if(env, e, args, fuel - 1),
            Builtin::Plus => native_plus(env, e, args, fuel - 1),
            Builtin::Minus => native_minus(env, e, args, fuel - 1),
            Builtin::And => native_and(env, e, args, fuel - 1),
            Builtin::Or => native_or(env, e, args, fuel - 1),
            Builtin::ListOf => native_list(env, e, args, fuel - 1),
            Builtin::Quote => native_quote(env, e, args, fuel - 1),
            Builtin::Quasiquote => native_quasiquote(env, e, args, fuel - 1),
            Builtin::Raise => native_raise(env, e, args, fuel - 1),
        },
        Function::Scheme(params, body) => {
            if params.len() != args.len() {
                return Err(err_arity(params.len()));
            }
            let ghost fs0 = env@;
            let ghost pv = str_views(params@);
            let ghost av = node_views(args@);
            let c = env.new_child(e);
            let ghost fs1 = env@;
            let mut i: usize = 0;
            proof {
                lemma_str_views_len(params@);
                lemma_node_views_len(args@);
                assert(pv.subrange(0, pv.len() as int) =~= pv);
                assert(av.subrange(0, av.len() as int) =~= av);
            }
            while i < params.len()
                invariant
                    env.wf(),
                    e < env@.len(),
                    c < env@.len(),
                    fs0 == old(env)@,
                    fs0.len() <= env@.len(),
                    c == fs0.len(),
                    fs1 == fs0.push(
                        FrameV { parent: Option::Some(e as int), vars: Seq::empty() },
                    ),
                    fs1.len() <= env@.len(),
                    function_view(*f) == FunctionV::Scheme(pv, node_views(body@)),
                    fuel > 0,
                    i <= params@.len(),
                    params@.len() == args@.len(),
                    pv == str_views(params@),
                    av == node_views(args@),
                    pv.len() == params@.len(),
                    av.len() == args@.len(),
                    s_bind_args(fs1, e as int, c as int, pv, av, fuel as nat) == s_bind_args(
                        env@,
                        e as int,
                        c as int,
                        pv.subrange(i as int, pv.len() as int),
                        av.subrange(i as int, av.len() as int),
                        fuel as nat,
                    ),
                decreases params@.len() - i,
            {
                let ghost pre = env@;
                let ghost rem_p = pv.subrange(i as int, pv.len() as int);
                let ghost rem_a = av.subrange(i as int, av.len() as int);
                let r1 = evaluate_node(env, e, &args[i], fuel - 1);
                proof {
                    lemma_node_views_index(args@, i as int);
                    assert(rem_a[0] == av[i as int]);
                }
                match r1 {
                    Ok(v) => {
                        let ghost mid = env@;
                        let ghost vv = value_view(v);
                        let name = params[i].clone();
                        proof {
                            lemma_str_views_index(params@, i as int);
                            assert(rem_p[0] == pv[i as int]);
                        }
                        env.insert(c, name, v);
                        i = i + 1;
                        proof {
                            assert(env@ == env_insert(mid, c as int, pv[i - 1], vv));
                            assert(rem_p.subrange(1, rem_p.len() as int) =~= pv.subrange(
                                i as int,
                                pv.len() as int,
                            ));
                            assert(rem_a.subrange(1, rem_a.len() as int) =~= av.subrange(
                                i as int,
                                av.len() as int,
                            ));
                        }
                    },
                    Err(er) => {
                        proof {
                            assert(s_bind_args(pre, e as int, c as int, rem_p, rem_a, fuel as nat)
                                == (env@, Err::<(), Seq<char>>(er@)));
                        }
                        return Err(er);
                    },
                }
            }
            proof {
                assert(pv.subrange(pv.len() as int, pv.len() as int).len() == 0);
            }
            evaluate_nodes(env, c, body, fuel - 1)
        },
    }
}

/// Evaluates a node sequence for effect, returning the last value (or the
/// empty list for an empty sequence).
pub fn evaluate_nodes(env: &mut Environment, e: usize, nodes: &Vec<Node>, fuel: u64) -> (r: Result<
    Value,
    RuntimeError,
>)
    requires
        old(env).wf(),
        e < old(env)@.len(),
    ensures
        final(env).wf(),
        old(env)@.len() <= final(env)@.len(),
        ({
            let sr = s_eval_nodes(old(env)@, e as int, node_views(nodes@), fuel as nat);
            final(env)@ == sr.0 && res_matches(r, sr.1)
        }),
    decreases fuel as nat, 2nat, 0nat,
{
    broadcast use {lemma_node_views_len, lemma_node_views_index};

    if fuel == 0 {
        return Err(err_str("Maximum recursion depth exceeded"));
    }
    let ghost fs0 = env@;
    let ghost ns = node_views(nodes@);
    let mut result = null_value();
    let mut i: usize = 0;
    proof {
        assert(ns.subrange(0, ns.len() as int) =~= ns);
    }
    while i < nodes.len()
        invariant
            env.wf(),
            e < env@.len(),
            fs0 == old(env)@,
            fs0.len() <= env@.len(),
            fuel > 0,
            i <= nodes@.len(),
            ns == node_views(nodes@),
            ns.len() == nodes@.len(),
            s_eval_nodes_from(fs0, e as int, ns, fuel as nat, null_v()) == s_eval_nodes_from(
                env@,
                e as int,
                ns.subrange(i as int, ns.len() as int),
                fuel as nat,
                value_view(result),
            ),
        decreases nodes@.len() - i,
    {
        let ghost rem = ns.subrange(i as int, ns.len() as int);
        let r1 = evaluate_node(env, e, &nodes[i], fuel - 1);
        proof {
            lemma_node_views_index(nodes@, i as int);
            assert(rem[0] == ns[i as int]);
        }
        match r1 {
            Ok(v) => {
                result = v;
                i = i + 1;
                proof {
                    assert(rem.subrange(1, rem.len() as int) =~= ns.subrange(
                        i as int,
                        ns.len() as int,
                    ));
                }
            },
            Err(er) => {
                return Err(er);
            },
        }
    }
    proof {
        assert(ns.subrange(ns.len() as int, ns.len() as int).len() == 0);
    }
    Ok(result)
}

/// Turns a node into a literal value; in quasi-mode an `(unquote x)` form
/// escapes back to evaluation.
pub fn quote_node(env: &mut Environment, e: usize, n: &Node, quasi: bool, fuel: u64) -> (r: Result<
    Value,
    RuntimeError,
>)
    requires
        old(env).wf(),
        e < old(env)@.len(),
    ensures
        final(env).wf(),
        old(env)@.len() <= final(env)@.len(),
        ({
            let sr = s_quote(old(env)@, e as int, node_view(*n), quasi, fuel as nat);
            final(env)@ == sr.0 && res_matches(r, sr.1)
        }),
    decreases fuel as nat, 2nat, 0nat,
{
    broadcast use {lemma_node_views_len, lemma_node_views_index, lemma_value_views_len, lemma_value_views_index, lemma_value_views_push};

    if fuel == 0 {
        return Err(err_str("Maximum recursion depth exceeded"));
    }
    match n {
        Node::Identifier(name) => Ok(Value::Symbol(name.clone())),
        Node::Integer(x) => Ok(Value::Integer(*x)),
        Node::Boolean(b) => Ok(Value::Boolean(*b)),
        Node::Text(s) => Ok(Value::Text(s.clone())),
        Node::List(elems) => {
            let ghost ev = node_views(elems@);
            let mut marker = false;
            if quasi && elems.len() > 0 {
                match &elems[0] {
                    Node::Identifier(s) => {
                        let unq = String::from_str("unquote");
                        marker = s.eq(&unq);
                    },
                    _ => {},
                }
            }
            proof {
                if elems@.len() > 0 {
                    lemma_node_views_index(elems@, 0);
                }
                assert(marker == (quasi && is_unquote_form(ev)));
            }
            if marker {
                if elems.len() != 2 {
                    return Err(err_str("Must supply exactly one argument to unquote"));
                }
                evaluate_node(env, e, &elems[1], fuel - 1)
            } else {
                let ghost fs0 = env@;
                let mut out: Vec<Value> = Vec::new();
                let mut i: usize = 0;
                proof {
                    assert(value_views(Seq::<Value>::empty()) =~= Seq::<ValueV>::empty());
                    assert(ev.subrange(0, ev.len() as int) =~= ev);
                }
                while i < elems.len()
                    invariant
                        env.wf(),
                        e < env@.len(),
                        fs0 == old(env)@,
                        fs0.len() <= env@.len(),
                        fuel > 0,
                        node_view(*n) == NodeV::List(ev),
                        !(quasi && is_unquote_form(ev)),
                        i <= elems@.len(),
                        ev == node_views(elems@),
                        ev.len() == elems@.len(),
                        s_quote_list(fs0, e as int, ev, quasi, fuel as nat, Seq::empty())
                            == s_quote_list(
                            env@,
                            e as int,
                            ev.subrange(i as int, ev.len() as int),
                            quasi,
                            fuel as nat,
                            value_views(out@),
                        ),
                    decreases elems@.len() - i,
                {
                    let ghost rem = ev.subrange(i as int, ev.len() as int);
                    let r1 = quote_node(env, e, &elems[i], quasi, fuel - 1);
                    proof {
                        lemma_node_views_index(elems@, i as int);
                        assert(rem[0] == ev[i as int]);
                    }
                    match r1 {
                        Ok(v) => {
                            let ghost out_pre = out@;
                            let ghost vv = value_view(v);
                            out.push(v);
                            i = i + 1;
                            proof {
                                lemma_value_views_push(out_pre, out@[out@.len() - 1]);
                                assert(value_views(out@) == value_views(out_pre).push(vv));
                                assert(rem.subrange(1, rem.len() as int) =~= ev.subrange(
                                    i as int,
                                    ev.len() as int,
                                ));
                            }
                        },
                        Err(er) => {
                            return Err(er);
                        },
                    }
                }
                proof {
                    assert(ev.subrange(ev.len() as int, ev.len() as int).len() == 0);
                }
                Ok(Value::List(out))
            }
        },
    }
}

/// `define`: binds a fresh name in the current frame; a second `define` of
/// the same name in the same frame is an error.
fn native_define(env: &mut Environment, e: usize, args: &Vec<Node>, fuel: u64) -> (r: Result<
    Value,
    RuntimeError,
>)
    requires
        old(env).wf(),
        e < old(env)@.len(),
    ensures
        final(env).wf(),
        old(env)@.len() <= final(env)@.len(),
        ({
            let sr = s_native_define(old(env)@, e as int, node_views(args@), fuel as nat);
            final(env)@ == sr.0 && res_matches(r, sr.1)
        }),
    decreases fuel as nat, 1nat, 0nat,
{
    broadcast use {lemma_node_views_len, lemma_node_views_index};

    if fuel == 0 {
        return Err(err_str("Maximum recursion depth exceeded"));
    }
    if args.len() != 2 {
        return Err(err_str("Must supply exactly two arguments to define"));
    }
    let ghost av = node_views(args@);
    match &args[0] {
        Node::Identifier(name) => {
            let already = env.contains(e, name);
            if !already {
                let r1 = evaluate_node(env, e, &args[1], fuel - 1);
                match r1 {
                    Ok(v) => {
                        let ghost mid = env@;
                        let ghost vv = value_view(v);
                        env.insert(e, name.clone(), v);
                        proof {
                            assert(env@ == env_insert(mid, e as int, name@, vv));
                        }
                        Ok(null_value())
                    },
                    Err(er) => Err(er),
                }
            } else {
                Err(err_with_name("Duplicate define: ", name))
            }
        },
        _ => Err(err_str("Unexpected node for name in define")),
    }
}

/// `set!`: overwrites a name that is already bound somewhere in the chain,
/// writing into the frame the call runs against.
fn native_assign(env: &mut Environment, e: usize, args: &Vec<Node>, fuel: u64) -> (r: Result<
    Value,
    RuntimeError,
>)
    requires
        old(env).wf(),
        e < old(env)@.len(),
    ensures
        final(env).wf(),
        old(env)@.len() <= final(env)@.len(),
        ({
            let sr = s_native_assign(old(env)@, e as int, node_views(args@), fuel as nat);
            final(env)@ == sr.0 && res_matches(r, sr.1)
        }),
    decreases fuel as nat, 1nat, 0nat,
{
    broadcast use {lemma_node_views_len, lemma_node_views_index};

    if fuel == 0 {
        return Err(err_str("Maximum recursion depth exceeded"));
    }
    if args.len() != 2 {
        return Err(err_str("Must supply exactly two arguments to set!"));
    }
    let ghost av = node_views(args@);
    match &args[0] {
        Node::Identifier(name) => {
            let bound = env.contains_in_chain(e, name);
            if bound {
                let r1 = evaluate_node(env, e, &args[1], fuel - 1);
                match r1 {
                    Ok(v) => {
                        let ghost mid = env@;
                        let ghost vv = value_view(v);
                        env.insert(e, name.clone(), v);
                        proof {
                            assert(env@ == env_insert(mid, e as int, name@, vv));
                        }
                        Ok(null_value())
                    },
                    Err(er) => Err(er),
                }
            } else {
                Err(err_with_name("Can't set! an undefined variable: ", name))
            }
        },
        _ => Err(err_str("Unexpected node for name in set!")),
    }
}

/// `lambda`: builds a user procedure from a parameter list of bare
/// identifiers and the remaining body nodes; nothing is evaluated.
fn native_lambda(env: &mut Environment, e: usize, args: &Vec<Node>, fuel: u64) -> (r: Result<
    Value,
    RuntimeError,
>)
    requires
        old(env).wf(),
        e < old(env)@.len(),
    ensures
        final(env).wf(),
        old(env)@.len() <= final(env)@.len(),
        ({
            let sr = s_native_lambda(old(env)@, e as int, node_views(args@), fuel as nat);
            final(env)@ == sr.0 && res_matches(r, sr.1)
        }),
    decreases fuel as nat, 1nat, 0nat,
{
    broadcast use {lemma_node_views_len, lemma_node_views_index, lemma_str_views_len, lemma_str_views_push};

    if fuel == 0 {
        return Err(err_str("Maximum recursion depth exceeded"));
    }
    if args.len() < 2 {
        return Err(err_str("Must supply at least two arguments to lambda"));
    }
    let ghost av = node_views(args@);
    match &args[0] {
        Node::List(items) => {
            let ghost iv = node_views(items@);
            let mut names: Vec<String> = Vec::new();
            let mut j: usize = 0;
            proof {
                assert(str_views(Seq::<String>::empty()) =~= Seq::<Seq<char>>::empty());
                assert(iv.subrange(0, iv.len() as int) =~= iv);
            }
            while j < items.len()
                invariant
                    env.wf(),
                    env@ == old(env)@,
                    e < env@.len(),
                    fuel > 0,
                    args@.len() >= 2,
                    av == node_views(args@),
                    av.len() == args@.len(),
                    av[0] == NodeV::List(iv),
                    j <= items@.len(),
                    iv == node_views(items@),
                    iv.len() == items@.len(),
                    (match s_param_names(iv.subrange(j as int, iv.len() as int)) {
                        Ok(rest) => s_param_names(iv) == Ok::<Seq<Seq<char>>, Seq<char>>(
                            str_views(names@) + rest,
                        ),
                        Err(m) => s_param_names(iv) == Err::<Seq<Seq<char>>, Seq<char>>(m),
                    }),
                decreases items@.len() - j,
            {
                let ghost rem = iv.subrange(j as int, iv.len() as int);
                proof {
                    lemma_node_views_index(items@, j as int);
                    assert(rem[0] == iv[j as int]);
                }
                match &items[j] {
                    Node::Identifier(s) => {
                        let ghost names_pre = names@;
                        let ghost s_snap = *s;
                        names.push(s.clone());
                        j = j + 1;
                        proof {
                            lemma_str_views_push(names_pre, s_snap);
                            assert(rem.subrange(1, rem.len() as int) =~= iv.subrange(
                                j as int,
                                iv.len() as int,
                            ));
                            let tail = iv.subrange(j as int, iv.len() as int);
                            match s_param_names(tail) {
                                Ok(rest) => {
                                    assert(str_views(names_pre) + (seq![s_snap@] + rest)
                                        =~= str_views(names@) + rest);
                                },
                                Err(m) => {},
                            }
                        }
                    },
                    _ => {
                        return Err(err_str("Unexpected argument in lambda arguments"));
                    },
                }
            }
            proof {
                assert(iv.subrange(iv.len() as int, iv.len() as int).len() == 0);
            }
            let body = clone_tail(args, 1);
            Ok(Value::Procedure(Function::Scheme(names, body)))
        },
        _ => Err(err_str("Unexpected node for arguments in lambda")),
    }
}

/// `if`: evaluates the condition; false selects the third argument, any
/// other value the second; only the selected branch is evaluated.
fn native_if(env: &mut Environment, e: usize, args: &Vec<Node>, fuel: u64) -> (r: Result<
    Value,
    RuntimeError,
>)
    requires
        old(env).wf(),
        e < old(env)@.len(),
    ensures
        final(env).wf(),
        old(env)@.len() <= final(env)@.len(),
        ({
            let sr = s_native_if(old(env)@, e as int, node_views(args@), fuel as nat);
            final(env)@ == sr.0 && res_matches(r, sr.1)
        }),
    decreases fuel as nat, 1nat, 0nat,
{
    broadcast use {lemma_node_views_len, lemma_node_views_index};

    if fuel == 0 {
        return Err(err_str("Maximum recursion depth exceeded"));
    }
    if args.len() != 3 {
        return Err(err_str("Must supply exactly three arguments to if"));
    }
    let r1 = evaluate_node(env, e, &args[0], fuel - 1);
    match r1 {
        Ok(v) => {
            if value_is_false(&v) {
                evaluate_node(env, e, &args[2], fuel - 1)
            } else {
                evaluate_node(env, e, &args[1], fuel - 1)
            }
        },
        Err(er) => Err(er),
    }
}

/// `+`: evaluates at least two arguments, all integers, and sums them with
/// wrap-around machine arithmetic.
fn native_plus(env: &mut Environment, e: usize, args: &Vec<Node>, fuel: u64) -> (r: Result<
    Value,
    RuntimeError,
>)
    requires
        old(env).wf(),
        e < old(env)@.len(),
    ensures
        final(env).wf(),
        old(env)@.len() <= final(env)@.len(),
        ({
            let sr = s_native_plus(old(env)@, e as int, node_views(args@), fuel as nat);
            final(env)@ == sr.0 && res_matches(r, sr.1)
        }),
    decreases fuel as nat, 1nat, 0nat,
{
    broadcast use {lemma_node_views_len, lemma_node_views_index};

    if fuel == 0 {
        return Err(err_str("Maximum recursion depth exceeded"));
    }
    if args.len() < 2 {
        return Err(err_str("Must supply at least two arguments to +"));
    }
    let ghost fs0 = env@;
    let ghost av = node_views(args@);
    let mut sum: i64 = 0;
    let mut i: usize = 0;
    proof {
        assert(av.subrange(0, av.len() as int) =~= av);
    }
    while i < args.len()
        invariant
            env.wf(),
            e < env@.len(),
            fs0 == old(env)@,
            fs0.len() <= env@.len(),
            fuel > 0,
            i <= args@.len(),
            av == node_views(args@),
            av.len() == args@.len(),
            av.len() >= 2,
            s_plus_loop(fs0, e as int, av, fuel as nat, 0) == s_plus_loop(
                env@,
                e as int,
                av.subrange(i as int, av.len() as int),
                fuel as nat,
                sum,
            ),
        decreases args@.len() - i,
    {
        let ghost rem = av.subrange(i as int, av.len() as int);
        let r1 = evaluate_node(env, e, &args[i], fuel - 1);
        proof {
            lemma_node_views_index(args@, i as int);
            assert(rem[0] == av[i as int]);
        }
        match r1 {
            Ok(v) => match v {
                Value::Integer(x) => {
                    sum = sum.wrapping_add(x);
                    i = i + 1;
                    proof {
                        assert(rem.subrange(1, rem.len() as int) =~= av.subrange(
                            i as int,
                            av.len() as int,
                        ));
                    }
                },
                _ => {
                    return Err(err_str("Unexpected node during +"));
                },
            },
            Err(er) => {
                return Err(er);
            },
        }
    }
    proof {
        assert(av.subrange(av.len() as int, av.len() as int).len() == 0);
    }
    Ok(Value::Integer(sum))
}

/// `-`: evaluates exactly two integer arguments and subtracts the second
/// from the first with wrap-around machine arithmetic.
fn native_minus(env: &mut Environment, e: usize, args: &Vec<Node>, fuel: u64) -> (r: Result<
    Value,
    RuntimeError,
>)
    requires
        old(env).wf(),
        e < old(env)@.len(),
    ensures
        final(env).wf(),
        old(env)@.len() <= final(env)@.len(),
        ({
            let sr = s_native_minus(old(env)@, e as int, node_views(args@), fuel as nat);
            final(env)@ == sr.0 && res_matches(r, sr.1)
        }),
    decreases fuel as nat, 1nat, 0nat,
{
    broadcast use {lemma_node_views_len, lemma_node_views_index};

    if fuel == 0 {
        return Err(err_str("Maximum recursion depth exceeded"));
    }
    if args.len() != 2 {
        return Err(err_str("Must supply exactly two arguments to -"));
    }
    let rl = evaluate_node(env, e, &args[0], fuel - 1);
    match rl {
        Ok(l) => {
            let rr = evaluate_node(env, e, &args[1], fuel - 1);
            match rr {
                Ok(rv) => match l {
                    Value::Integer(x) => match rv {
                        Value::Integer(y) => Ok(Value::Integer(x.wrapping_sub(y))),
                        _ => Err(err_str("Unexpected node during -")),
                    },
                    _ => Err(err_str("Unexpected node during -")),
                },
                Err(er) => Err(er),
            }
        },
        Err(er) => Err(er),
    }
}

/// `and`: evaluates left to right, returning false at the first false value,
/// else the last value (true with no arguments).
fn native_and(env: &mut Environment, e: usize, args: &Vec<Node>, fuel: u64) -> (r: Result<
    Value,
    RuntimeError,
>)
    requires
        old(env).wf(),
        e < old(env)@.len(),
    ensures
        final(env).wf(),
        old(env)@.len() <= final(env)@.len(),
        ({
            let sr = s_native_and(old(env)@, e as int, node_views(args@), fuel as nat);
            final(env)@ == sr.0 && res_matches(r, sr.1)
        }),
    decreases fuel as nat, 1nat, 0nat,
{
    broadcast use {lemma_node_views_len, lemma_node_views_index};

    if fuel == 0 {
        return Err(err_str("Maximum recursion depth exceeded"));
    }
    let ghost fs0 = env@;
    let ghost av = node_views(args@);
    let mut acc = Value::Boolean(true);
    let mut i: usize = 0;
    proof {
        assert(av.subrange(0, av.len() as int) =~= av);
    }
    while i < args.len()
        invariant
            env.wf(),
            e < env@.len(),
            fs0 == old(env)@,
            fs0.len() <= env@.len(),
            fuel > 0,
            i <= args@.len(),
            av == node_views(args@),
            av.len() == args@.len(),
            s_and_loop(fs0, e as int, av, fuel as nat, ValueV::Boolean(true)) == s_and_loop(
                env@,
                e as int,
                av.subrange(i as int, av.len() as int),
                fuel as nat,
                value_view(acc),
            ),
        decreases args@.len() - i,
    {
        let ghost rem = av.subrange(i as int, av.len() as int);
        let r1 = evaluate_node(env, e, &args[i], fuel - 1);
        proof {
            lemma_node_views_index(args@, i as int);
            assert(rem[0] == av[i as int]);
        }
        match r1 {
            Ok(v) => {
                if value_is_false(&v) {
                    return Ok(Value::Boolean(false));
                }
                acc = v;
                i = i + 1;
                proof {
                    assert(rem.subrange(1, rem.len() as int) =~= av.subrange(
                        i as int,
                        av.len() as int,
                    ));
                }
            },
            Err(er) => {
                return Err(er);
            },
        }
    }
    proof {
        assert(av.subrange(av.len() as int, av.len() as int).len() == 0);
    }
    Ok(acc)
}

/// `or`: evaluates left to right, returning the first non-false value, else
/// false.
fn native_or(env: &mut Environment, e: usize, args: &Vec<Node>, fuel: u64) -> (r: Result<
    Value,
    RuntimeError,
>)
    requires
        old(env).wf(),
        e < old(env)@.len(),
    ensures
        final(env).wf(),
        old(env)@.len() <= final(env)@.len(),
        ({
            let sr = s_native_or(old(env)@, e as int, node_views(args@), fuel as nat);
            final(env)@ == sr.0 && res_matches(r, sr.1)
        }),
    decreases fuel as nat, 1nat, 0nat,
{
    broadcast use {lemma_node_views_len, lemma_node_views_index};

    if fuel == 0 {
        return Err(err_str("Maximum recursion depth exceeded"));
    }
    let ghost fs0 = env@;
    let ghost av = node_views(args@);
    let mut i: usize = 0;
    proof {
        assert(av.subrange(0, av.len() as int) =~= av);
    }
    while i < args.len()
        invariant
            env.wf(),
            e < env@.len(),
            fs0 == old(env)@,
            fs0.len() <= env@.len(),
            fuel > 0,
            i <= args@.len(),
            av == node_views(args@),
            av.len() == args@.len(),
            s_or_loop(fs0, e as int, av, fuel as nat) == s_or_loop(
                env@,
                e as int,
                av.subrange(i as int, av.len() as int),
                fuel as nat,
            ),
        decreases args@.len() - i,
    {
        let ghost rem = av.subrange(i as int, av.len() as int);
        let r1 = evaluate_node(env, e, &args[i], fuel - 1);
        proof {
            lemma_node_views_index(args@, i as int);
            assert(rem[0] == av[i as int]);
        }
        match r1 {
            Ok(v) => {
                if !value_is_false(&v) {
                    return Ok(v);
                }
                i = i + 1;
                proof {
                    assert(rem.subrange(1, rem.len() as int) =~= av.subrange(
                        i as int,
                        av.len() as int,
                    ));
                }
            },
            Err(er) => {
                return Err(er);
            },
        }
    }
    proof {
        assert(av.subrange(av.len() as int, av.len() as int).len() == 0);
    }
    Ok(Value::Boolean(false))
}

/// `list`: evaluates every argument and collects the values, in order.
fn native_list(env: &mut Environment, e: usize, args: &Vec<Node>, fuel: u64) -> (r: Result<
    Value,
    RuntimeError,
>)
    requires
        old(env).wf(),
        e < old(env)@.len(),
    ensures
        final(env).wf(),
        old(env)@.len() <= final(env)@.len(),
        ({
            let sr = s_native_list(old(env)@, e as int, node_views(args@), fuel as nat);
            final(env)@ == sr.0 && res_matches(r, sr.1)
        }),
    decreases fuel as nat, 1nat, 0nat,
{
    broadcast use {lemma_node_views_len, lemma_node_views_index, lemma_value_views_push};

    if fuel == 0 {
        return Err(err_str("Maximum recursion depth exceeded"));
    }
    let ghost fs0 = env@;
    let ghost av = node_views(args@);
    let mut out: Vec<Value> = Vec::new();
    let mut i: usize = 0;
    proof {
        assert(value_views(Seq::<Value>::empty()) =~= Seq::<ValueV>::empty());
        assert(av.subrange(0, av.len() as int) =~= av);
    }
    while i < args.len()
        invariant
            env.wf(),
            e < env@.len(),
            fs0 == old(env)@,
            fs0.len() <= env@.len(),
            fuel > 0,
            i <= args@.len(),
            av == node_views(args@),
            av.len() == args@.len(),
            s_list_loop(fs0, e as int, av, fuel as nat, Seq::empty()) == s_list_loop(
                env@,
                e as int,
                av.subrange(i as int, av.len() as int),
                fuel as nat,
                value_views(out@),
            ),
        decreases args@.len() - i,
    {
        let ghost rem = av.subrange(i as int, av.len() as int);
        let r1 = evaluate_node(env, e, &args[i], fuel - 1);
        proof {
            lemma_node_views_index(args@, i as int);
            assert(rem[0] == av[i as int]);
        }
        match r1 {
            Ok(v) => {
                let ghost out_pre = out@;
                let ghost vv = value_view(v);
                out.push(v);
                i = i + 1;
                proof {
                    lemma_value_views_push(out_pre, out@[out@.len() - 1]);
                    assert(value_views(out@) == value_views(out_pre).push(vv));
                    assert(rem.subrange(1, rem.len() as int) =~= av.subrange(
                        i as int,
                        av.len() as int,
                    ));
                }
            },
            Err(er) => {
                return Err(er);
            },
        }
    }
    proof {
        assert(av.subrange(av.len() as int, av.len() as int).len() == 0);
    }
    Ok(Value::List(out))
}

/// `quote`: the single argument as a literal value.
fn native_quote(env: &mut Environment, e: usize, args: &Vec<Node>, fuel: u64) -> (r: Result<
    Value,
    RuntimeError,
>)
    requires
        old(env).wf(),
        e < old(env)@.len(),
    ensures
        final(env).wf(),
        old(env)@.len() <= final(env)@.len(),
        ({
            let sr = s_native_quote(old(env)@, e as int, node_views(args@), fuel as nat);
            final(env)@ == sr.0 && res_matches(r, sr.1)
        }),
    decreases fuel as nat, 1nat, 0nat,
{
    broadcast use {lemma_node_views_len, lemma_node_views_index};

    if fuel == 0 {
        return Err(err_str("Maximum recursion depth exceeded"));
    }
    if args.len() != 1 {
        return Err(err_str("Must supply exactly one argument to quote"));
    }
    quote_node(env, e, &args[0], false, fuel - 1)
}

/// `quasiquote`: the single argument as a literal value, with `unquote`
/// escapes evaluated.
fn native_quasiquote(env: &mut Environment, e: usize, args: &Vec<Node>, fuel: u64) -> (r: Result<
    Value,
    RuntimeError,
>)
    requires
        old(env).wf(),
        e < old(env)@.len(),
    ensures
        final(env).wf(),
        old(env)@.len() <= final(env)@.len(),
        ({
            let sr = s_native_quasiquote(old(env)@, e as int, node_views(args@), fuel as nat);
            final(env)@ == sr.0 && res_matches(r, sr.1)
        }),
    decreases fuel as nat, 1nat, 0nat,
{
    broadcast use {lemma_node_views_len, lemma_node_views_index};

    if fuel == 0 {
        return Err(err_str("Maximum recursion depth exceeded"));
    }
    if args.len() != 1 {
        return Err(err_str("Must supply exactly one argument to quasiquote"));
    }
    quote_node(env, e, &args[0], true, fuel - 1)
}

/// `error`: evaluates its argument and fails with the value's rendering.
fn native_raise(env: &mut Environment, e: usize, args: &Vec<Node>, fuel: u64) -> (r: Result<
    Value,
    RuntimeError,
>)
    requires
        old(env).wf(),
        e < old(env)@.len(),
    ensures
        final(env).wf(),
        old(env)@.len() <= final(env)@.len(),
        ({
            let sr = s_native_raise(old(env)@, e as int, node_views(args@), fuel as nat);
            final(env)@ == sr.0 && res_matches(r, sr.1)
        }),
    decreases fuel as nat, 1nat, 0nat,
{
    broadcast use {lemma_node_views_len, lemma_node_views_index};

    if fuel == 0 {
        return Err(err_str("Maximum recursion depth exceeded"));
    }
    if args.len() != 1 {
        return Err(err_str("Must supply exactly one arguments to error"));
    }
    let r1 = evaluate_node(env, e, &args[0], fuel - 1);
    match r1 {
        Ok(v) => Err(RuntimeError { message: v.to_str() }),
        Err(er) => Err(er),
    }
}

/// Interprets a program: a fresh root environment, then the node sequence;
/// the result is the last node's value.
pub fn interpret(nodes: &Vec<Node>) -> (r: Result<Value, RuntimeError>)
    ensures
        res_matches(r, s_interpret(node_views(nodes@))),
{
    let mut env = Environment::new_root();
    proof {
        assert(env.wf());
        assert(env@.len() == 1);
    }
    evaluate_nodes(&mut env, 0, nodes, EVAL_FUEL)
}

} // verus!
