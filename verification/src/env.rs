//! The environment chain: an arena of frames, each a mapping from names to
//! values plus an optional parent link.  Frames form a tree whose parents
//! always stand earlier in the arena, so lookups terminate.

use vstd::prelude::*;
use crate::value::{
    Builtin, Function, FunctionV, Value, ValueV, value_view,
};

verus! {

/// One scope's bindings, in insertion order, plus the parent link.
pub struct Frame {
    pub parent: Option<usize>,
    pub vars: Vec<(String, Value)>,
}

/// The mathematical image of a frame.
pub struct FrameV {
    pub parent: Option<int>,
    pub vars: Seq<(Seq<char>, ValueV)>,
}

pub open spec fn var_view(p: (String, Value)) -> (Seq<char>, ValueV) {
    (p.0@, value_view(p.1))
}

pub open spec fn var_views(s: Seq<(String, Value)>) -> Seq<(Seq<char>, ValueV)>
    decreases s.len(),
{
    if s.len() == 0 {
        Seq::empty()
    } else {
        seq![var_view(s[0])] + var_views(s.subrange(1, s.len() as int))
    }
}

pub broadcast proof fn lemma_var_views_len(s: Seq<(String, Value)>)
    ensures
        (#[trigger] var_views(s)).len() == s.len(),
    decreases s.len(),
{
    if s.len() != 0 {
        lemma_var_views_len(s.subrange(1, s.len() as int));
    }
}

pub broadcast proof fn lemma_var_views_index(s: Seq<(String, Value)>, i: int)
    requires
        0 <= i < s.len(),
    ensures
        #[trigger] var_views(s)[i] == var_view(s[i]),
    decreases s.len(),
{
    broadcast use lemma_var_views_len;

    if i > 0 {
        lemma_var_views_index(s.subrange(1, s.len() as int), i - 1);
    }
}

pub broadcast proof fn lemma_var_views_push(s: Seq<(String, Value)>, x: (String, Value))
    ensures
        #[trigger] var_views(s.push(x)) == var_views(s).push(var_view(x)),
{
    broadcast use {lemma_var_views_len, lemma_var_views_index};

    assert forall|k: int| 0 <= k < s.len() + 1 implies var_views(s.push(x))[k] == var_views(s).push(
        var_view(x),
    )[k] by {
        lemma_var_views_index(s.push(x), k);
        if k < s.len() {
            lemma_var_views_index(s, k);
        }
    }
    assert(var_views(s.push(x)) =~= var_views(s).push(var_view(x)));
}

pub broadcast proof fn lemma_var_views_update(s: Seq<(String, Value)>, i: int, x: (String, Value))
    requires
        0 <= i < s.len(),
    ensures
        #[trigger] var_views(s.update(i, x)) == var_views(s).update(i, var_view(x)),
{
    broadcast use {lemma_var_views_len, lemma_var_views_index};

    assert forall|k: int| 0 <= k < s.len() implies var_views(s.update(i, x))[k] == var_views(
        s,
    ).update(i, var_view(x))[k] by {
        lemma_var_views_index(s.update(i, x), k);
        if k != i {
            lemma_var_views_index(s, k);
        }
    }
    assert(var_views(s.update(i, x)) =~= var_views(s).update(i, var_view(x)));
}

pub open spec fn frame_view(f: Frame) -> FrameV {
    FrameV {
        parent: match f.parent {
            Option::Some(p) => Option::Some(p as int),
            Option::None => Option::None,
        },
        vars: var_views(f.vars@),
    }
}

pub open spec fn frame_views(s: Seq<Frame>) -> Seq<FrameV>
    decreases s.len(),
{
    if s.len() == 0 {
        Seq::empty()
    } else {
        seq![frame_view(s[0])] + frame_views(s.subrange(1, s.len() as int))
    }
}

pub broadcast proof fn lemma_frame_views_len(s: Seq<Frame>)
    ensures
        (#[trigger] frame_views(s)).len() == s.len(),
    decreases s.len(),
{
    if s.len() != 0 {
        lemma_frame_views_len(s.subrange(1, s.len() as int));
    }
}

pub broadcast proof fn lemma_frame_views_index(s: Seq<Frame>, i: int)
    requires
        0 <= i < s.len(),
    ensures
        #[trigger] frame_views(s)[i] == frame_view(s[i]),
    decreases s.len(),
{
    broadcast use lemma_frame_views_len;

    if i > 0 {
        lemma_frame_views_index(s.subrange(1, s.len() as int), i - 1);
    }
}

pub broadcast proof fn lemma_frame_views_push(s: Seq<Frame>, x: Frame)
    ensures
        #[trigger] frame_views(s.push(x)) == frame_views(s).push(frame_view(x)),
{
    broadcast use {lemma_frame_views_len, lemma_frame_views_index};

    assert forall|k: int| 0 <= k < s.len() + 1 implies frame_views(s.push(x))[k] == frame_views(
        s,
    ).push(frame_view(x))[k] by {
        lemma_frame_views_index(s.push(x), k);
        if k < s.len() {
            lemma_frame_views_index(s, k);
        }
    }
    assert(frame_views(s.push(x)) =~= frame_views(s).push(frame_view(x)));
}

pub broadcast proof fn lemma_frame_views_update(s: Seq<Frame>, i: int, x: Frame)
    requires
        0 <= i < s.len(),
    ensures
        #[trigger] frame_views(s.update(i, x)) == frame_views(s).update(i, frame_view(x)),
{
    broadcast use {lemma_frame_views_len, lemma_frame_views_index};

    assert forall|k: int| 0 <= k < s.len() implies frame_views(s.update(i, x))[k] == frame_views(
        s,
    ).update(i, frame_view(x))[k] by {
        lemma_frame_views_index(s.update(i, x), k);
        if k != i {
            lemma_frame_views_index(s, k);
        }
    }
    assert(frame_views(s.update(i, x)) =~= frame_views(s).update(i, frame_view(x)));
}

/// The first binding of `name` in one frame's list, if any.
pub open spec fn frame_lookup(vars: Seq<(Seq<char>, ValueV)>, name: Seq<char>) -> Option<ValueV>
    decreases vars.len(),
{
    if vars.len() == 0 {
        Option::None
    } else if vars[0].0 == name {
        Option::Some(vars[0].1)
    } else {
        frame_lookup(vars.subrange(1, vars.len() as int), name)
    }
}

pub open spec fn frame_has(vars: Seq<(Seq<char>, ValueV)>, name: Seq<char>) -> bool {
    frame_lookup(vars, name) is Some
}

/// Overwrites the first binding of `name` in place, or appends a new one.
pub open spec fn frame_set(vars: Seq<(Seq<char>, ValueV)>, name: Seq<char>, v: ValueV) -> Seq<
    (Seq<char>, ValueV),
>
    decreases vars.len(),
{
    if vars.len() == 0 {
        seq![(name, v)]
    } else if vars[0].0 == name {
        seq![(name, v)] + vars.subrange(1, vars.len() as int)
    } else {
        seq![vars[0]] + frame_set(vars.subrange(1, vars.len() as int), name, v)
    }
}

/// Every parent link points to an earlier frame of the arena.
pub open spec fn wf_frames(fs: Seq<FrameV>) -> bool {
    forall|i: int|
        0 <= i < fs.len() ==> ((#[trigger] fs[i].parent) matches Some(p) ==> 0 <= p < i)
}

/// The first binding of `name` found walking from frame `e` out through the
/// parent links.
pub open spec fn chain_lookup(fs: Seq<FrameV>, e: int, name: Seq<char>) -> Option<ValueV>
    decreases e,
{
    if 0 <= e < fs.len() {
        match frame_lookup(fs[e].vars, name) {
            Option::Some(v) => Option::Some(v),
            Option::None => match fs[e].parent {
                Option::Some(p) => if 0 <= p < e {
                    chain_lookup(fs, p, name)
                } else {
                    Option::None
                },
                Option::None => Option::None,
            },
        }
    } else {
        Option::None
    }
}

pub open spec fn chain_has(fs: Seq<FrameV>, e: int, name: Seq<char>) -> bool {
    chain_lookup(fs, e, name) is Some
}

/// The bindings of a fresh root environment: every builtin procedure under
/// its surface name, in a fixed order.
pub open spec fn root_vars() -> Seq<(Seq<char>, ValueV)> {
    seq![
        ("define"@, ValueV::Procedure(FunctionV::Native(Builtin::Define))),
        ("set!"@, ValueV::Procedure(FunctionV::Native(Builtin::Assign))),
        ("lambda"@, ValueV::Procedure(FunctionV::Native(Builtin::Lambda))),
        ("\u{3bb}"@, ValueV::Procedure(FunctionV::Native(Builtin::Lambda))),
        ("if"@, ValueV::Procedure(FunctionV::Native(Builtin::If))),
        ("+"@, ValueV::Procedure(FunctionV::Native(Builtin::Plus))),
        ("-"@, ValueV::Procedure(FunctionV::Native(Builtin::Minus))),
        ("and"@, ValueV::Procedure(FunctionV::Native(Builtin::And))),
        ("or"@, ValueV::Procedure(FunctionV::Native(Builtin::Or))),
        ("list"@, ValueV::Procedure(FunctionV::Native(Builtin::ListOf))),
        ("quote"@, ValueV::Procedure(FunctionV::Native(Builtin::Quote))),
        ("quasiquote"@, ValueV::Procedure(FunctionV::Native(Builtin::Quasiquote))),
        ("error"@, ValueV::Procedure(FunctionV::Native(Builtin::Raise))),
    ]
}

/// The arena-wide state of a fresh root environment.
pub open spec fn root_state() -> Seq<FrameV> {
    seq![FrameV { parent: Option::None, vars: root_vars() }]
}

/// The arena of environment frames.  Frame `0` of a fresh arena is the root.
pub struct Environment {
    frames: Vec<Frame>,
}

impl View for Environment {
    type V = Seq<FrameV>;

    closed spec fn view(&self) -> Seq<FrameV> {
        frame_views(self.frames@)
    }
}

impl Environment {
    pub open spec fn wf(self) -> bool {
        wf_frames(self@)
    }

    /// A fresh root environment holding all builtin procedures.
    pub fn new_root() -> (env: Environment)
        ensures
            env@ == root_state(),
            env.wf(),
    {
        broadcast use {lemma_var_views_len, lemma_var_views_index, lemma_var_views_push};

        let mut vars: Vec<(String, Value)> = Vec::new();
        vars.push((String::from_str("define"), Value::Procedure(Function::Native(Builtin::Define))));
        vars.push((String::from_str("set!"), Value::Procedure(Function::Native(Builtin::Assign))));
        vars.push((String::from_str("lambda"), Value::Procedure(Function::Native(Builtin::Lambda))));
        vars.push((String::from_str("\u{3bb}"), Value::Procedure(Function::Native(Builtin::Lambda))));
        vars.push((String::from_str("if"), Value::Procedure(Function::Native(Builtin::If))));
        vars.push((String::from_str("+"), Value::Procedure(Function::Native(Builtin::Plus))));
        vars.push((String::from_str("-"), Value::Procedure(Function::Native(Builtin::Minus))));
        vars.push((String::from_str("and"), Value::Procedure(Function::Native(Builtin::And))));
        vars.push((String::from_str("or"), Value::Procedure(Function::Native(Builtin::Or))));
        vars.push((String::from_str("list"), Value::Procedure(Function::Native(Builtin::ListOf))));
        vars.push((String::from_str("quote"), Value::Procedure(Function::Native(Builtin::Quote))));
        vars.push((
            String::from_str("quasiquote"),
            Value::Procedure(Function::Native(Builtin::Quasiquote)),
        ));
        vars.push((String::from_str("error"), Value::Procedure(Function::Native(Builtin::Raise))));
        proof {
            assert(var_views(vars@) =~= root_vars());
        }
        let mut frames: Vec<Frame> = Vec::new();
        frames.push(Frame { parent: Option::None, vars });
        let env = Environment { frames };
        proof {
            lemma_frame_views_len(env.frames@);
            lemma_frame_views_index(env.frames@, 0);
            assert(env@ =~= root_state());
        }
        env
    }

    /// Appends a fresh empty frame whose parent is `parent`, and returns its
    /// index.
    pub fn new_child(&mut self, parent: usize) -> (c: usize)
        requires
            parent < old(self)@.len(),
        ensures
            c == old(self)@.len(),
            final(self)@ == old(self)@.push(
                FrameV { parent: Option::Some(parent as int), vars: Seq::empty() },
            ),
            old(self).wf() ==> final(self).wf(),
    {
        proof {
            lemma_frame_views_len(self.frames@);
        }
        let c = self.frames.len();
        let fr = Frame { parent: Option::Some(parent), vars: Vec::new() };
        proof {
            lemma_frame_views_push(self.frames@, fr);
        }
        self.frames.push(fr);
        proof {
            assert(final(self)@ == old(self)@.push(
                FrameV { parent: Option::Some(parent as int), vars: var_views(Seq::empty()) },
            ));
            assert(var_views(Seq::empty()) =~= Seq::<(Seq<char>, ValueV)>::empty());
            if old(self).wf() {
                let fs = final(self)@;
                assert forall|i: int|
                    0 <= i < fs.len() implies ((#[trigger] fs[i].parent) matches Some(p) ==> 0 <= p
                    < i) by {
                    if i < old(self)@.len() {
                        assert(fs[i] == old(self)@[i]);
                    }
                }
            }
        }
        c
    }

    /// Searches one frame's own bindings for `name` and hands back a copy of
    /// the bound value.
    fn frame_find(&self, e: usize, name: &String) -> (r: Option<Value>)
        requires
            e < self@.len(),
        ensures
            (match r {
                Option::Some(v) => frame_lookup(self@[e as int].vars, name@) == Option::Some(
                    value_view(v),
                ),
                Option::None => frame_lookup(self@[e as int].vars, name@) is None,
            }),
    {
        proof {
            lemma_frame_views_len(self.frames@);
            lemma_frame_views_index(self.frames@, e as int);
        }
        let fr = &self.frames[e];
        let ghost vs = var_views(fr.vars@);
        let n = fr.vars.len();
        let mut j: usize = 0;
        proof {
            lemma_var_views_len(fr.vars@);
            assert(vs.subrange(0, n as int) =~= vs);
        }
        while j < n
            invariant
                e < self@.len(),
                self@[e as int].vars == vs,
                n == fr.vars@.len(),
                j <= n,
                vs == var_views(fr.vars@),
                vs.len() == n,
                frame_lookup(vs, name@) == frame_lookup(vs.subrange(j as int, n as int), name@),
            decreases n - j,
        {
            proof {
                lemma_var_views_len(fr.vars@);
                lemma_var_views_index(fr.vars@, j as int);
            }
            let key = &fr.vars[j].0;
            let matches_here = key.eq(name);
            if matches_here {
                proof {
                    assert(vs.subrange(j as int, n as int)[0] == vs[j as int]);
                }
                return Option::Some(fr.vars[j].1.clone());
            }
            proof {
                assert(vs.subrange(j as int, n as int).subrange(
                    1,
                    vs.subrange(j as int, n as int).len() as int,
                ) =~= vs.subrange(j + 1, n as int));
            }
            j = j + 1;
        }
        proof {
            assert(vs.subrange(j as int, n as int).len() == 0);
        }
        Option::None
    }

    /// Does this one frame (not its parents) bind `name`?
    pub fn contains(&self, e: usize, name: &String) -> (b: bool)
        requires
            e < self@.len(),
        ensures
            b == frame_has(self@[e as int].vars, name@),
    {
        match self.frame_find(e, name) {
            Option::Some(_) => true,
            Option::None => false,
        }
    }

    /// Does any frame reachable from `e` through parent links bind `name`?
    pub fn contains_in_chain(&self, e: usize, name: &String) -> (b: bool)
        requires
            self.wf(),
            e < self@.len(),
        ensures
            b == chain_has(self@, e as int, name@),
    {
        match self.lookup(e, name) {
            Option::Some(_) => true,
            Option::None => false,
        }
    }

    /// The value bound to `name` in the first frame that binds it, walking
    /// from `e` outward; `None` if the whole chain does not bind it.
    pub fn lookup(&self, e: usize, name: &String) -> (r: Option<Value>)
        requires
            self.wf(),
            e < self@.len(),
        ensures
            (match r {
                Option::Some(v) => chain_lookup(self@, e as int, name@) == Option::Some(
                    value_view(v),
                ),
                Option::None => chain_lookup(self@, e as int, name@) is None,
            }),
    {
        let mut cur = e;
        loop
            invariant
                self.wf(),
                cur < self@.len(),
                chain_lookup(self@, e as int, name@) == chain_lookup(self@, cur as int, name@),
            decreases cur,
        {
            match self.frame_find(cur, name) {
                Option::Some(v) => {
                    return Option::Some(v);
                },
                Option::None => {},
            }
            proof {
                lemma_frame_views_len(self.frames@);
                lemma_frame_views_index(self.frames@, cur as int);
            }
            match &self.frames[cur].parent {
                Option::Some(p) => {
                    cur = *p;
                },
                Option::None => {
                    return Option::None;
                },
            }
        }
    }

    /// Binds `name` to `value` in frame `e`: overwrites the frame's first
    /// binding of the name, or appends a new one.
    pub fn insert(&mut self, e: usize, name: String, value: Value)
        requires
            e < old(self)@.len(),
        ensures
            final(self)@ == old(self)@.update(
                e as int,
                FrameV {
                    parent: old(self)@[e as int].parent,
                    vars: frame_set(old(self)@[e as int].vars, name@, value_view(value)),
                },
            ),
            old(self).wf() ==> final(self).wf(),
    {
        proof {
            lemma_frame_views_len(self.frames@);
            lemma_frame_views_index(self.frames@, e as int);
        }
        let ghost vs = var_views(self.frames@[e as int].vars@);
        let n = self.frames[e].vars.len();
        let mut j: usize = 0;
        let mut found: Option<usize> = Option::None;
        proof {
            lemma_var_views_len(self.frames@[e as int].vars@);
        }
        while j < n
            invariant
                e < self@.len(),
                n == self.frames@[e as int].vars@.len(),
                vs == var_views(self.frames@[e as int].vars@),
                vs.len() == n,
                j <= n,
                (match found {
                    Option::Some(k) => k < j && vs[k as int].0 == name@ && (forall|l: int|
                        0 <= l < k ==> (#[trigger] vs[l].0) != name@),
                    Option::None => forall|l: int| 0 <= l < j ==> (#[trigger] vs[l].0) != name@,
                }),
            decreases n - j,
        {
            if found.is_none() {
                proof {
                    lemma_frame_views_len(self.frames@);
                    lemma_frame_views_index(self.frames@, e as int);
                    lemma_var_views_len(self.frames@[e as int].vars@);
                    lemma_var_views_index(self.frames@[e as int].vars@, j as int);
                }
                let key = &self.frames[e].vars[j].0;
                let matches_here = key.eq(&name);
                if matches_here {
                    found = Option::Some(j);
                }
            }
            j = j + 1;
        }
        let ghost old_frames = self.frames@;
        let ghost old_view = self@;
        let ghost new_pair_v = (name@, value_view(value));
        match found {
            Option::Some(k) => {
                self.frames[e].vars[k] = (name, value);
                proof {
                    let f_old = old_frames[e as int];
                    let f_new = self.frames@[e as int];
                    assert(f_new.vars@ == f_old.vars@.update(k as int, f_new.vars@[k as int]));
                    lemma_var_views_update(f_old.vars@, k as int, f_new.vars@[k as int]);
                    lemma_frame_views_update(old_frames, e as int, f_new);
                    assert(self.frames@ == old_frames.update(e as int, f_new));
                    lemma_frame_set_found(vs, name@, value_view(value), k as int);
                    assert(final(self)@ =~= old_view.update(
                        e as int,
                        FrameV {
                            parent: old_view[e as int].parent,
                            vars: frame_set(vs, name@, value_view(value)),
                        },
                    ));
                }
            },
            Option::None => {
                self.frames[e].vars.push((name, value));
                proof {
                    let f_old = old_frames[e as int];
                    let f_new = self.frames@[e as int];
                    assert(f_new.vars@ == f_old.vars@.push(f_new.vars@[n as int]));
                    lemma_var_views_push(f_old.vars@, f_new.vars@[n as int]);
                    lemma_frame_views_update(old_frames, e as int, f_new);
                    assert(self.frames@ == old_frames.update(e as int, f_new));
                    lemma_frame_set_absent(vs, name@, value_view(value));
                    assert(final(self)@ =~= old_view.update(
                        e as int,
                        FrameV {
                            parent: old_view[e as int].parent,
                            vars: frame_set(vs, name@, value_view(value)),
                        },
                    ));
                }
            },
        }
        proof {
            if old(self).wf() {
                let fs = final(self)@;
                assert forall|i: int|
                    0 <= i < fs.len() implies ((#[trigger] fs[i].parent) matches Some(p) ==> 0 <= p
                    < i) by {
                    if i != e {
                        assert(fs[i] == old_view[i]);
                    }
                }
            }
        }
    }
}

/// When the first binding of `name` stands at index `k`, overwriting is a
/// pointwise update.
proof fn lemma_frame_set_found(vs: Seq<(Seq<char>, ValueV)>, name: Seq<char>, v: ValueV, k: int)
    requires
        0 <= k < vs.len(),
        vs[k].0 == name,
        forall|l: int| 0 <= l < k ==> (#[trigger] vs[l].0) != name,
    ensures
        frame_set(vs, name, v) == vs.update(k, (name, v)),
    decreases vs.len(),
{
    if k == 0 {
        assert(frame_set(vs, name, v) =~= vs.update(0, (name, v)));
    } else {
        let rest = vs.subrange(1, vs.len() as int);
        assert(vs[0].0 != name);
        assert forall|l: int| 0 <= l < k - 1 implies (#[trigger] rest[l].0) != name by {
            assert(rest[l] == vs[l + 1]);
        }
        lemma_frame_set_found(rest, name, v, k - 1);
        assert(frame_set(vs, name, v) =~= vs.update(k, (name, v)));
    }
}

/// When the first binding of `name` stands at index `k`, the lookup finds
/// exactly that binding.
pub proof fn lemma_frame_lookup_found(vs: Seq<(Seq<char>, ValueV)>, name: Seq<char>, k: int)
    requires
        0 <= k < vs.len(),
        vs[k].0 == name,
        forall|l: int| 0 <= l < k ==> (#[trigger] vs[l].0) != name,
    ensures
        frame_lookup(vs, name) == Option::Some(vs[k].1),
    decreases vs.len(),
{
    if k == 0 {
    } else {
        let rest = vs.subrange(1, vs.len() as int);
        assert(vs[0].0 != name);
        assert forall|l: int| 0 <= l < k - 1 implies (#[trigger] rest[l].0) != name by {
            assert(rest[l] == vs[l + 1]);
        }
        lemma_frame_lookup_found(rest, name, k - 1);
    }
}

/// When no binding of `name` exists, overwriting appends.
proof fn lemma_frame_set_absent(vs: Seq<(Seq<char>, ValueV)>, name: Seq<char>, v: ValueV)
    requires
        forall|l: int| 0 <= l < vs.len() ==> (#[trigger] vs[l].0) != name,
    ensures
        frame_set(vs, name, v) == vs.push((name, v)),
    decreases vs.len(),
{
    if vs.len() == 0 {
        assert(frame_set(vs, name, v) =~= vs.push((name, v)));
    } else {
        let rest = vs.subrange(1, vs.len() as int);
        assert forall|l: int| 0 <= l < rest.len() implies (#[trigger] rest[l].0) != name by {
            assert(rest[l] == vs[l + 1]);
        }
        lemma_frame_set_absent(rest, name, v);
        assert(frame_set(vs, name, v) =~= vs.push((name, v)));
    }
}

} // verus!
