//! General laws of the evaluator, stated over the mathematical interpreter
//! and proved once and for all.

use vstd::prelude::*;
use crate::parser::NodeV;
use crate::value::{Builtin, FunctionV, ValueV, null_v};
use crate::env::{
    FrameV, chain_lookup, chain_has, frame_has, frame_lookup, frame_set, root_state, root_vars,
    lemma_frame_lookup_found,
};
use crate::interpreter::{
    s_interpret, s_eval_node, s_eval_nodes, s_eval_nodes_from, s_eval_expr, s_apply, s_native,
    s_native_if, s_native_define, s_native_assign, s_native_plus, s_native_minus, s_plus_loop,
    s_quote, s_quote_list, env_insert,
    msg_dup_define, msg_set_unbound, EVAL_FUEL,
};

verus! {

/// The root environment binds `+` to the addition builtin and `-` to the
/// subtraction builtin.
proof fn lemma_root_arith_lookup()
    ensures
        chain_lookup(root_state(), 0, "+"@) == Option::Some(
            ValueV::Procedure(FunctionV::Native(Builtin::Plus)),
        ),
        chain_lookup(root_state(), 0, "-"@) == Option::Some(
            ValueV::Procedure(FunctionV::Native(Builtin::Minus)),
        ),
{
    broadcast use vstd::string::group_string_axioms;

    reveal_strlit("define");
    reveal_strlit("set!");
    reveal_strlit("lambda");
    reveal_strlit("\u{3bb}");
    reveal_strlit("if");
    reveal_strlit("+");
    reveal_strlit("-");
    assert("define"@.len() == 6);
    assert("set!"@.len() == 4);
    assert("lambda"@.len() == 6);
    assert("\u{3bb}"@.len() == 1);
    assert("if"@.len() == 2);
    assert("+"@.len() == 1);
    assert("-"@.len() == 1);
    assert("\u{3bb}"@[0] == '\u{3bb}');
    assert("+"@[0] == '+');
    assert("-"@[0] == '-');
    let rv = root_vars();
    assert(rv[0].0 == "define"@);
    assert(rv[1].0 == "set!"@);
    assert(rv[2].0 == "lambda"@);
    assert(rv[3].0 == "\u{3bb}"@);
    assert(rv[4].0 == "if"@);
    assert(rv[5].0 == "+"@);
    assert(rv[6].0 == "-"@);
    assert("define"@ != "+"@ && "set!"@ != "+"@ && "lambda"@ != "+"@ && "\u{3bb}"@ != "+"@
        && "if"@ != "+"@);
    assert("define"@ != "-"@ && "set!"@ != "-"@ && "lambda"@ != "-"@ && "\u{3bb}"@ != "-"@
        && "if"@ != "-"@ && "+"@ != "-"@);
    assert forall|l: int| 0 <= l < 5 implies (#[trigger] rv[l].0) != "+"@ by {
        assert(rv[0].0 == "define"@ && rv[1].0 == "set!"@ && rv[2].0 == "lambda"@ && rv[3].0
            == "\u{3bb}"@ && rv[4].0 == "if"@);
    }
    lemma_frame_lookup_found(rv, "+"@, 5);
    assert forall|l: int| 0 <= l < 6 implies (#[trigger] rv[l].0) != "-"@ by {
        assert(rv[0].0 == "define"@ && rv[1].0 == "set!"@ && rv[2].0 == "lambda"@ && rv[3].0
            == "\u{3bb}"@ && rv[4].0 == "if"@ && rv[5].0 == "+"@);
    }
    lemma_frame_lookup_found(rv, "-"@, 6);
}

/// Adding a and b stays in machine range, so wrap-around addition is plain
/// addition.
proof fn lemma_wrap_add_exact(a: i64, b: i64)
    requires
        i64::MIN <= a + b <= i64::MAX,
    ensures
        vstd::wrapping::i64_specs::wrapping_add(a, b) == (a + b) as i64,
{
}

/// For all integers a, b and c whose partial sums fit the machine range,
/// the program `(+ a b c)` evaluates to the integer a + b + c.
pub proof fn lemma_plus_evaluates_to_sum(a: i64, b: i64, c: i64)
    requires
        i64::MIN <= a + b <= i64::MAX,
        i64::MIN <= a + b + c <= i64::MAX,
    ensures
        s_interpret(
            seq![
                NodeV::List(
                    seq![
                        NodeV::Identifier("+"@),
                        NodeV::Integer(a),
                        NodeV::Integer(b),
                        NodeV::Integer(c),
                    ],
                ),
            ],
        ) == Ok::<ValueV, Seq<char>>(ValueV::Integer((a + b + c) as i64)),
{
    lemma_root_arith_lookup();
    lemma_wrap_add_exact(0, a);
    lemma_wrap_add_exact(a, b);
    lemma_wrap_add_exact((a + b) as i64, c);
    reveal_with_fuel(s_eval_nodes_from, 3);
    reveal_with_fuel(s_eval_node, 4);
    reveal_with_fuel(s_plus_loop, 5);
    let fs = root_state();
    let elems = seq![
        NodeV::Identifier("+"@),
        NodeV::Integer(a),
        NodeV::Integer(b),
        NodeV::Integer(c),
    ];
    let prog = seq![NodeV::List(elems)];
    let f: nat = EVAL_FUEL as nat;
    assert(f >= 10);
    assert(prog[0] == NodeV::List(elems));
    assert(s_eval_node(fs, 0, elems[0], (f - 3) as nat) == (
        fs,
        Ok::<ValueV, Seq<char>>(ValueV::Procedure(FunctionV::Native(Builtin::Plus))),
    ));
    let args = elems.subrange(1, 4);
    assert(args.len() == 3);
    assert(args[0] == NodeV::Integer(a) && args[1] == NodeV::Integer(b) && args[2]
        == NodeV::Integer(c));
    let pf: nat = (f - 4) as nat;
    assert(s_eval_node(fs, 0, args[0], (pf - 1) as nat) == (fs, Ok::<ValueV, Seq<char>>(
        ValueV::Integer(a),
    )));
    assert(args.subrange(1, 3).subrange(1, 2) =~= args.subrange(2, 3));
    assert(s_plus_loop(fs, 0, args.subrange(2, 3), pf, (a + b) as i64) == (
        fs,
        Ok::<ValueV, Seq<char>>(ValueV::Integer((a + b + c) as i64)),
    ));
    assert(s_plus_loop(fs, 0, args.subrange(1, 3), pf, a) == (
        fs,
        Ok::<ValueV, Seq<char>>(ValueV::Integer((a + b + c) as i64)),
    ));
    assert(s_plus_loop(fs, 0, args, pf, 0) == (
        fs,
        Ok::<ValueV, Seq<char>>(ValueV::Integer((a + b + c) as i64)),
    ));
    let out = (fs, Ok::<ValueV, Seq<char>>(ValueV::Integer((a + b + c) as i64)));
    assert(s_native_plus(fs, 0, args, pf) == out);
    assert(s_native(fs, 0, Builtin::Plus, args, pf) == out);
    assert(s_apply(fs, 0, FunctionV::Native(Builtin::Plus), args, (f - 3) as nat) == out);
    assert(s_eval_expr(fs, 0, elems, (f - 2) as nat) == out);
    assert(s_eval_node(fs, 0, prog[0], (f - 1) as nat) == out);
    assert(prog.subrange(1, 1).len() == 0);
    assert(s_eval_nodes_from(fs, 0, prog, f, null_v()) == out);
    assert(s_eval_nodes(fs, 0, prog, f) == out);
}

/// Subtracting b from a stays in machine range, so wrap-around subtraction
/// is plain subtraction.
proof fn lemma_wrap_sub_exact(a: i64, b: i64)
    requires
        i64::MIN <= a - b <= i64::MAX,
    ensures
        vstd::wrapping::i64_specs::wrapping_sub(a, b) == (a - b) as i64,
{
}

/// For all integers a and b whose difference fits the machine range, the
/// program `(- a b)` evaluates to the integer a - b.
pub proof fn lemma_minus_evaluates_to_difference(a: i64, b: i64)
    requires
        i64::MIN <= a - b <= i64::MAX,
    ensures
        s_interpret(
            seq![NodeV::List(seq![NodeV::Identifier("-"@), NodeV::Integer(a), NodeV::Integer(b)])],
        ) == Ok::<ValueV, Seq<char>>(ValueV::Integer((a - b) as i64)),
{
    lemma_root_arith_lookup();
    lemma_wrap_sub_exact(a, b);
    reveal_with_fuel(s_eval_nodes_from, 3);
    reveal_with_fuel(s_eval_node, 4);
    let fs = root_state();
    let elems = seq![NodeV::Identifier("-"@), NodeV::Integer(a), NodeV::Integer(b)];
    let prog = seq![NodeV::List(elems)];
    let f: nat = EVAL_FUEL as nat;
    assert(f >= 10);
    assert(prog[0] == NodeV::List(elems));
    assert(s_eval_node(fs, 0, elems[0], (f - 3) as nat) == (
        fs,
        Ok::<ValueV, Seq<char>>(ValueV::Procedure(FunctionV::Native(Builtin::Minus))),
    ));
    let args = elems.subrange(1, 3);
    assert(args.len() == 2);
    assert(args[0] == NodeV::Integer(a) && args[1] == NodeV::Integer(b));
    assert(s_eval_node(fs, 0, args[0], (f - 5) as nat) == (fs, Ok::<ValueV, Seq<char>>(
        ValueV::Integer(a),
    )));
    assert(s_eval_node(fs, 0, args[1], (f - 5) as nat) == (fs, Ok::<ValueV, Seq<char>>(
        ValueV::Integer(b),
    )));
    let out = (fs, Ok::<ValueV, Seq<char>>(ValueV::Integer((a - b) as i64)));
    assert(s_native_minus(fs, 0, args, (f - 4) as nat) == out);
    assert(s_native(fs, 0, Builtin::Minus, args, (f - 4) as nat) == out);
    assert(s_apply(fs, 0, FunctionV::Native(Builtin::Minus), args, (f - 3) as nat) == out);
    assert(s_eval_expr(fs, 0, elems, (f - 2) as nat) == out);
    assert(s_eval_node(fs, 0, prog[0], (f - 1) as nat) == out);
    assert(prog.subrange(1, 1).len() == 0);
    assert(s_eval_nodes_from(fs, 0, prog, f, null_v()) == out);
    assert(s_eval_nodes(fs, 0, prog, f) == out);
}

/// The root environment binds `if` to the conditional builtin.
proof fn lemma_root_if_lookup()
    ensures
        chain_lookup(root_state(), 0, "if"@) == Option::Some(
            ValueV::Procedure(FunctionV::Native(Builtin::If)),
        ),
{
    broadcast use vstd::string::group_string_axioms;

    reveal_strlit("define");
    reveal_strlit("set!");
    reveal_strlit("lambda");
    reveal_strlit("\u{3bb}");
    reveal_strlit("if");
    assert("define"@.len() == 6);
    assert("set!"@.len() == 4);
    assert("lambda"@.len() == 6);
    assert("\u{3bb}"@.len() == 1);
    assert("if"@.len() == 2);
    let rv = root_vars();
    assert(rv[0].0 == "define"@);
    assert(rv[1].0 == "set!"@);
    assert(rv[2].0 == "lambda"@);
    assert(rv[3].0 == "\u{3bb}"@);
    assert(rv[4].0 == "if"@);
    assert("define"@ != "if"@ && "set!"@ != "if"@ && "lambda"@ != "if"@ && "\u{3bb}"@ != "if"@);
    assert forall|l: int| 0 <= l < 4 implies (#[trigger] rv[l].0) != "if"@ by {
        assert(rv[0].0 == "define"@ && rv[1].0 == "set!"@ && rv[2].0 == "lambda"@ && rv[3].0
            == "\u{3bb}"@);
    }
    lemma_frame_lookup_found(rv, "if"@, 4);
}

/// A whole program `(if #f X Y)` is exactly the evaluation of Y in a fresh
/// root environment: X does not appear on the right-hand side, so it is
/// never evaluated, whatever it is.
pub proof fn lemma_program_if_false_never_evaluates_then(x: NodeV, y: NodeV)
    ensures
        s_interpret(
            seq![
                NodeV::List(seq![NodeV::Identifier("if"@), NodeV::Boolean(false), x, y]),
            ],
        ) == s_eval_node(root_state(), 0, y, (EVAL_FUEL - 5) as nat).1,
{
    lemma_root_if_lookup();
    reveal_with_fuel(s_eval_nodes_from, 3);
    reveal_with_fuel(s_eval_node, 3);
    let fs = root_state();
    let elems = seq![NodeV::Identifier("if"@), NodeV::Boolean(false), x, y];
    let prog = seq![NodeV::List(elems)];
    let f: nat = EVAL_FUEL as nat;
    assert(f >= 10);
    assert(prog[0] == NodeV::List(elems));
    assert(s_eval_node(fs, 0, elems[0], (f - 3) as nat) == (
        fs,
        Ok::<ValueV, Seq<char>>(ValueV::Procedure(FunctionV::Native(Builtin::If))),
    ));
    let args = elems.subrange(1, 4);
    assert(args.len() == 3);
    assert(args[0] == NodeV::Boolean(false) && args[1] == x && args[2] == y);
    assert(s_eval_node(fs, 0, args[0], (f - 5) as nat) == (fs, Ok::<ValueV, Seq<char>>(
        ValueV::Boolean(false),
    )));
    let ry = s_eval_node(fs, 0, y, (f - 5) as nat);
    assert(s_native_if(fs, 0, args, (f - 4) as nat) == ry);
    assert(s_native(fs, 0, Builtin::If, args, (f - 4) as nat) == ry);
    assert(s_apply(fs, 0, FunctionV::Native(Builtin::If), args, (f - 3) as nat) == ry);
    assert(s_eval_expr(fs, 0, elems, (f - 2) as nat) == ry);
    assert(s_eval_node(fs, 0, prog[0], (f - 1) as nat) == ry);
    assert(prog.subrange(1, 1).len() == 0);
    match ry.1 {
        Ok(v) => {
            assert(s_eval_nodes_from(fs, 0, prog, f, null_v()) == (ry.0, Ok::<ValueV, Seq<char>>(
                v,
            )));
        },
        Err(m) => {
            assert(s_eval_nodes_from(fs, 0, prog, f, null_v()) == (ry.0, Err::<ValueV, Seq<char>>(
                m,
            )));
        },
    }
    assert(s_eval_nodes(fs, 0, prog, f).1 == ry.1);
}

/// `(if #f X Y)` evaluates the else-branch `y`; the then-branch `x` is
/// arbitrary and untouched: the result does not depend on it at all.
pub proof fn lemma_if_false_takes_else(fs: Seq<FrameV>, e: int, x: NodeV, y: NodeV, fuel: nat)
    requires
        fuel >= 2,
    ensures
        s_native_if(fs, e, seq![NodeV::Boolean(false), x, y], fuel) == s_eval_node(
            fs,
            e,
            y,
            (fuel - 1) as nat,
        ),
{
}

/// Any condition that evaluates to something other than the boolean false
/// selects the then-branch `x`; the else-branch `y` is untouched.
pub proof fn lemma_if_nonfalse_takes_then(
    fs: Seq<FrameV>,
    e: int,
    cond: NodeV,
    x: NodeV,
    y: NodeV,
    fuel: nat,
)
    requires
        fuel >= 1,
        ({
            let r = s_eval_node(fs, e, cond, (fuel - 1) as nat).1;
            r is Ok && r->Ok_0 != ValueV::Boolean(false)
        }),
    ensures
        s_native_if(fs, e, seq![cond, x, y], fuel) == s_eval_node(
            s_eval_node(fs, e, cond, (fuel - 1) as nat).0,
            e,
            x,
            (fuel - 1) as nat,
        ),
{
}

/// A second `define` of a name already bound in the same frame fails with a
/// duplicate-define error and changes nothing; the value node is never
/// evaluated.
pub proof fn lemma_duplicate_define_fails(
    fs: Seq<FrameV>,
    e: int,
    name: Seq<char>,
    valnode: NodeV,
    fuel: nat,
)
    requires
        fuel >= 1,
        frame_has(fs[e].vars, name),
    ensures
        s_native_define(fs, e, seq![NodeV::Identifier(name), valnode], fuel) == (
            fs,
            Err::<ValueV, Seq<char>>(msg_dup_define(name)),
        ),
{
}

/// `set!` on a name bound nowhere in the reachable chain fails and changes
/// nothing; the value node is never evaluated.
pub proof fn lemma_assign_unbound_fails(
    fs: Seq<FrameV>,
    e: int,
    name: Seq<char>,
    valnode: NodeV,
    fuel: nat,
)
    requires
        fuel >= 1,
        !chain_has(fs, e, name),
    ensures
        s_native_assign(fs, e, seq![NodeV::Identifier(name), valnode], fuel) == (
            fs,
            Err::<ValueV, Seq<char>>(msg_set_unbound(name)),
        ),
{
}

/// After a frame takes the binding `name = v`, looking the name up in that
/// frame finds exactly `v`.
proof fn lemma_frame_set_lookup(vars: Seq<(Seq<char>, ValueV)>, name: Seq<char>, v: ValueV)
    ensures
        frame_lookup(frame_set(vars, name, v), name) == Option::Some(v),
    decreases vars.len(),
{
    if vars.len() == 0 {
        assert(frame_set(vars, name, v)[0] == (name, v));
    } else if vars[0].0 == name {
        assert(frame_set(vars, name, v)[0] == (name, v));
    } else {
        lemma_frame_set_lookup(vars.subrange(1, vars.len() as int), name, v);
        let out = frame_set(vars, name, v);
        assert(out[0] == vars[0]);
        assert(out.subrange(1, out.len() as int) =~= frame_set(
            vars.subrange(1, vars.len() as int),
            name,
            v,
        ));
    }
}

/// `set!` on a bound name succeeds: it evaluates the value node, writes the
/// value into the frame the call ran against, returns the empty list, and a
/// subsequent lookup from that frame sees the new value.
pub proof fn lemma_assign_bound_updates(
    fs: Seq<FrameV>,
    e: int,
    name: Seq<char>,
    valnode: NodeV,
    fuel: nat,
)
    requires
        fuel >= 1,
        0 <= e < fs.len(),
        chain_has(fs, e, name),
        ({
            let r = s_eval_node(fs, e, valnode, (fuel - 1) as nat);
            r.1 is Ok && r.0.len() == fs.len()
        }),
    ensures
        ({
            let r = s_eval_node(fs, e, valnode, (fuel - 1) as nat);
            let v = r.1->Ok_0;
            let fs2 = env_insert(r.0, e, name, v);
            &&& s_native_assign(fs, e, seq![NodeV::Identifier(name), valnode], fuel) == (
                fs2,
                Ok::<ValueV, Seq<char>>(null_v()),
            )
            &&& chain_lookup(fs2, e, name) == Option::Some(v)
        }),
{
    let r = s_eval_node(fs, e, valnode, (fuel - 1) as nat);
    let v = r.1->Ok_0;
    let fs2 = env_insert(r.0, e, name, v);
    lemma_frame_set_lookup(r.0[e].vars, name, v);
    assert(fs2[e].vars == frame_set(r.0[e].vars, name, v));
    assert(frame_lookup(fs2[e].vars, name) == Option::Some(v));
}

/// Quoting is a fixed point for literals: an integer, boolean or text node
/// quotes to the same literal value, and an identifier quotes to a symbol —
/// never a lookup, so it cannot fail on an unbound name.
pub proof fn lemma_quote_literal_fixed_point(
    fs: Seq<FrameV>,
    e: int,
    x: i64,
    b: bool,
    t: Seq<char>,
    name: Seq<char>,
    quasi: bool,
    fuel: nat,
)
    requires
        fuel >= 1,
    ensures
        s_quote(fs, e, NodeV::Integer(x), quasi, fuel) == (fs, Ok::<ValueV, Seq<char>>(
            ValueV::Integer(x),
        )),
        s_quote(fs, e, NodeV::Boolean(b), quasi, fuel) == (fs, Ok::<ValueV, Seq<char>>(
            ValueV::Boolean(b),
        )),
        s_quote(fs, e, NodeV::Text(t), quasi, fuel) == (fs, Ok::<ValueV, Seq<char>>(
            ValueV::Text(t),
        )),
        s_quote(fs, e, NodeV::Identifier(name), quasi, fuel) == (fs, Ok::<ValueV, Seq<char>>(
            ValueV::Symbol(name),
        )),
{
}

/// Inside `quasiquote`, `(unquote X)` evaluates X in the ambient
/// environment: quoting the form in quasi-mode is exactly evaluation of X.
pub proof fn lemma_unquote_escapes_in_quasi(fs: Seq<FrameV>, e: int, x: NodeV, fuel: nat)
    requires
        fuel >= 1,
    ensures
        s_quote(fs, e, NodeV::List(seq![NodeV::Identifier("unquote"@), x]), true, fuel)
            == s_eval_node(fs, e, x, (fuel - 1) as nat),
{
    let elems = seq![NodeV::Identifier("unquote"@), x];
    assert(elems[0] == NodeV::Identifier("unquote"@));
    assert(elems[1] == x);
}

/// Outside quasi-mode, `unquote` is nothing special: the same list quotes
/// to a literal list whose head is the symbol `unquote`.
pub proof fn lemma_unquote_is_plain_outside_quasi(fs: Seq<FrameV>, e: int, x: NodeV, fuel: nat)
    requires
        fuel >= 2,
        s_quote(fs, e, x, false, (fuel - 1) as nat).1 is Ok,
    ensures
        ({
            let inner = s_quote(fs, e, x, false, (fuel - 1) as nat);
            s_quote(fs, e, NodeV::List(seq![NodeV::Identifier("unquote"@), x]), false, fuel) == (
                inner.0,
                Ok::<ValueV, Seq<char>>(
                    ValueV::List(seq![ValueV::Symbol("unquote"@), inner.1->Ok_0]),
                ),
            )
        }),
{
    reveal_with_fuel(s_quote_list, 4);
    let elems = seq![NodeV::Identifier("unquote"@), x];
    let inner = s_quote(fs, e, x, false, (fuel - 1) as nat);
    let v = inner.1->Ok_0;
    assert(s_quote(fs, e, elems[0], false, (fuel - 1) as nat).1 == Ok::<ValueV, Seq<char>>(
        ValueV::Symbol("unquote"@),
    )) by {
        assert(elems[0] == NodeV::Identifier("unquote"@));
    }
    assert(elems.subrange(1, 2)[0] == x);
    assert(elems.subrange(1, 2).subrange(1, 1).len() == 0);
    assert(s_quote_list(fs, e, elems, false, fuel, Seq::empty()) == (
        inner.0,
        Ok::<ValueV, Seq<char>>(ValueV::List(seq![ValueV::Symbol("unquote"@), v])),
    )) by {
        assert(Seq::<ValueV>::empty().push(ValueV::Symbol("unquote"@)).push(v) =~= seq![
            ValueV::Symbol("unquote"@),
            v,
        ]);
    }
}

} // verus!
