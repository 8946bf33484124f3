use std::rc::Rc;
use vstd::prelude::*;

use crate::term::{
    ind_head, spine_args, spec_ind_head, spec_spine_args, Inductive, Sig, Term,
};

verus! {

/// Semantic values of normalisation by evaluation.
#[derive(Clone)]
pub enum Value {
    Neutral(Neutral),
    Universe(u32),
    Prop,
    Pi(Rc<Value>, Closure),
    Lam(Rc<Value>, Closure),
    Sigma(Rc<Value>, Closure),
    Pair(Rc<Value>, Rc<Value>, Rc<Value>),
    Ind(usize, Vec<Rc<Value>>),
    Constr(usize, usize, Vec<Rc<Value>>),
    RecApp(usize, u32, Vec<Rc<Value>>),
}

/// Stuck computations: a variable (as a de Bruijn level) or an axiom under
/// eliminations.
pub enum Neutral {
    Var(usize),
    App(Rc<Neutral>, Rc<Value>),
    Fst(Rc<Neutral>),
    Snd(Rc<Neutral>),
    Rec(usize, u32, Vec<Rc<Value>>, Rc<Neutral>),
    Axiom(usize),
}

/// A term body under one binder, with the environment it was built in.
#[derive(Clone)]
pub struct Closure {
    pub(crate) env: Vec<Rc<Value>>,
    pub(crate) body: Term,
    pub(crate) sig: Rc<Sig>,
}

pub type Env = Vec<Rc<Value>>;

impl Clone for Neutral {
    fn clone(&self) -> (res: Self)
        ensures
            mneu(res) == mneu(*self),
    {
        match self {
            Neutral::Var(l) => Neutral::Var(*l),
            Neutral::App(f, a) => Neutral::App(f.clone(), a.clone()),
            Neutral::Fst(n) => Neutral::Fst(n.clone()),
            Neutral::Snd(n) => Neutral::Snd(n.clone()),
            Neutral::Rec(i, t, fixed, major) => {
                let f2 = clone_env(fixed);
                proof {
                    lemma_mvals_eq(f2@, fixed@);
                }
                Neutral::Rec(*i, *t, f2, major.clone())
            },
            Neutral::Axiom(i) => Neutral::Axiom(*i),
        }
    }
}

/// What a value denotes: the same tree, with sequences where the value
/// holds vectors and plain values where it holds shared pointers.
pub enum MValue {
    Neutral(MNeutral),
    Universe(u32),
    Prop,
    Pi(Box<MValue>, MClosure),
    Lam(Box<MValue>, MClosure),
    Sigma(Box<MValue>, MClosure),
    Pair(Box<MValue>, Box<MValue>, Box<MValue>),
    Ind(usize, Seq<MValue>),
    Constr(usize, usize, Seq<MValue>),
    RecApp(usize, u32, Seq<MValue>),
}

/// What a neutral value denotes.
pub enum MNeutral {
    Var(usize),
    App(Box<MNeutral>, Box<MValue>),
    Fst(Box<MNeutral>),
    Snd(Box<MNeutral>),
    Rec(usize, u32, Seq<MValue>, Box<MNeutral>),
    Axiom(usize),
}

/// What a closure denotes: its environment, body and signature.
pub struct MClosure {
    pub env: Seq<MValue>,
    pub body: Term,
    pub sig: Seq<Inductive>,
}

pub open spec fn mval(v: Value) -> MValue
    decreases v,
{
    match v {
        Value::Neutral(n) => MValue::Neutral(mneu(n)),
        Value::Universe(n) => MValue::Universe(n),
        Value::Prop => MValue::Prop,
        Value::Pi(a, c) => MValue::Pi(Box::new(mval(*a)), mclo(c)),
        Value::Lam(a, c) => MValue::Lam(Box::new(mval(*a)), mclo(c)),
        Value::Sigma(a, c) => MValue::Sigma(Box::new(mval(*a)), mclo(c)),
        Value::Pair(x, a, b) => MValue::Pair(
            Box::new(mval(*x)),
            Box::new(mval(*a)),
            Box::new(mval(*b)),
        ),
        Value::Ind(i, sp) => MValue::Ind(i, mvals(sp@)),
        Value::Constr(i, j, sp) => MValue::Constr(i, j, mvals(sp@)),
        Value::RecApp(i, t, sp) => MValue::RecApp(i, t, mvals(sp@)),
    }
}

pub open spec fn mvals(s: Seq<Rc<Value>>) -> Seq<MValue>
    decreases s,
{
    if s.len() == 0 {
        Seq::empty()
    } else {
        mvals(s.drop_last()).push(mval(*s.last()))
    }
}

pub open spec fn mneu(n: Neutral) -> MNeutral
    decreases n,
{
    match n {
        Neutral::Var(l) => MNeutral::Var(l),
        Neutral::App(f, a) => MNeutral::App(Box::new(mneu(*f)), Box::new(mval(*a))),
        Neutral::Fst(p) => MNeutral::Fst(Box::new(mneu(*p))),
        Neutral::Snd(p) => MNeutral::Snd(Box::new(mneu(*p))),
        Neutral::Rec(i, t, fixed, major) => MNeutral::Rec(
            i,
            t,
            mvals(fixed@),
            Box::new(mneu(*major)),
        ),
        Neutral::Axiom(i) => MNeutral::Axiom(i),
    }
}

pub closed spec fn mclo(c: Closure) -> MClosure
    decreases c,
{
    MClosure { env: mvals(c.env@), body: c.body, sig: c.sig@ }
}

/// What a closure denotes, spelled out.
pub(crate) proof fn lemma_mclo(c: Closure)
    ensures
        mclo(c) == (MClosure { env: mvals(c.env@), body: c.body, sig: c.sig@ }),
{
}

/// What a shared value denotes.
pub open spec fn mrc(v: &Rc<Value>) -> MValue {
    mval(**v)
}

/// What an optional value denotes.
pub open spec fn omval(o: Option<Rc<Value>>) -> Option<MValue> {
    match o {
        Some(v) => Some(mval(*v)),
        None => None,
    }
}

pub proof fn lemma_mvals_index(s: Seq<Rc<Value>>)
    ensures
        mvals(s).len() == s.len(),
        forall|k: int| 0 <= k < s.len() ==> #[trigger] mvals(s)[k] == mval(*s[k]),
    decreases s.len(),
{
    if s.len() > 0 {
        lemma_mvals_index(s.drop_last());
    }
}

pub proof fn lemma_mvals_eq(a: Seq<Rc<Value>>, b: Seq<Rc<Value>>)
    requires
        a == b,
    ensures
        mvals(a) == mvals(b),
{
}

pub proof fn lemma_mvals_subrange(s: Seq<Rc<Value>>, lo: int, hi: int)
    requires
        0 <= lo <= hi <= s.len(),
    ensures
        mvals(s.subrange(lo, hi)) == mvals(s).subrange(lo, hi),
{
    lemma_mvals_index(s);
    lemma_mvals_index(s.subrange(lo, hi));
    assert(mvals(s.subrange(lo, hi)) =~= mvals(s).subrange(lo, hi));
}

pub proof fn lemma_mvals_push(s: Seq<Rc<Value>>, x: Rc<Value>)
    ensures
        mvals(s.push(x)) == mvals(s).push(mval(*x)),
{
    assert(s.push(x).drop_last() =~= s);
}


/// Recursion budget of the public entry points: the evaluator and the type
/// checker stop with a failure instead of recursing deeper than this.
pub const FUEL: u64 = 0xffff_ffff_ffff_ffffu64;

pub fn clone_env(v: &Env) -> (r: Env)
    ensures
        r@ == v@,
{
    let mut r: Env = Vec::new();
    let mut i: usize = 0;
    while i < v.len()
        invariant
            i <= v@.len(),
            r@ == v@.subrange(0, i as int),
        decreases v@.len() - i,
    {
        r.push(v[i].clone());
        i = i + 1;
        assert(r@ =~= v@.subrange(0, i as int));
    }
    assert(v@.subrange(0, v@.len() as int) =~= v@);
    r
}

pub fn slice_env(v: &Env, lo: usize, hi: usize) -> (r: Env)
    requires
        lo <= hi <= v@.len(),
    ensures
        r@ == v@.subrange(lo as int, hi as int),
{
    let mut r: Env = Vec::new();
    let mut i: usize = lo;
    while i < hi
        invariant
            lo <= i <= hi,
            hi <= v@.len(),
            r@ == v@.subrange(lo as int, i as int),
        decreases hi - i,
    {
        r.push(v[i].clone());
        i = i + 1;
        assert(r@ =~= v@.subrange(lo as int, i as int));
    }
    r
}

/// Number of arguments after which a recursor application fires:
/// parameters, motive, methods, indices and the major premise.
pub open spec fn spec_rec_arity(ind: Inductive) -> int {
    (ind.params@.len() + 1 + ind.constructors@.len() + ind.indices@.len() + 1) as int
}

pub fn rec_arity(ind: &Inductive) -> (r: Option<usize>)
    ensures
        r == (if spec_rec_arity(*ind) <= usize::MAX {
            Some(spec_rec_arity(*ind) as usize)
        } else {
            None
        }),
{
    let np = ind.params.len();
    let k = ind.constructors.len();
    let ni = ind.indices.len();
    if np > usize::MAX - 2 {
        return None;
    }
    let a = np + 2;
    if k > usize::MAX - a {
        return None;
    }
    let b = a + k;
    if ni > usize::MAX - b {
        return None;
    }
    Some(b + ni)
}

/// For constructor `j` of inductive `i`: which arguments are recursive
/// occurrences of `i` itself.
pub fn first_order_rec_mask(sig: &Sig, i: usize, j: usize) -> (r: Vec<bool>)
    requires
        i < sig@.len(),
        j < sig@[i as int].constructors@.len(),
    ensures
        r@.len() == sig@[i as int].constructors@[j as int].args@.len(),
        forall|l: int|
            0 <= l < r@.len() ==> #[trigger] r@[l] == (spec_ind_head(
                sig@[i as int].constructors@[j as int].args@[l],
            ) == Some(i)),
{
    let args = &sig[i].constructors[j].args;
    let mut r: Vec<bool> = Vec::new();
    let mut l: usize = 0;
    while l < args.len()
        invariant
            args@ == sig@[i as int].constructors@[j as int].args@,
            l <= args@.len(),
            r@.len() == l,
            forall|m: int|
                0 <= m < l ==> #[trigger] r@[m] == (spec_ind_head(args@[m]) == Some(i)),
        decreases args@.len() - l,
    {
        let b = match ind_head(&args[l]) {
            Some(h) => h == i,
            None => false,
        };
        r.push(b);
        l = l + 1;
    }
    r
}

/// The value of the variable with de Bruijn level `level`.
pub open spec fn mvar(level: usize) -> MValue {
    MValue::Neutral(MNeutral::Var(level))
}

pub open spec fn spec_proj1(p: MValue) -> Option<MValue> {
    match p {
        MValue::Pair(_, a, _) => Some(*a),
        MValue::Neutral(n) => Some(MValue::Neutral(MNeutral::Fst(Box::new(n)))),
        _ => None,
    }
}

pub open spec fn spec_proj2(p: MValue) -> Option<MValue> {
    match p {
        MValue::Pair(_, _, b) => Some(*b),
        MValue::Neutral(n) => Some(MValue::Neutral(MNeutral::Snd(Box::new(n)))),
        _ => None,
    }
}

/// Law: applying a λ runs its body with the argument bound last in the
/// closure's environment (β), and applying a constructor or a type former
/// adds the argument at the end of its spine.
pub proof fn lemma_apply_beta(fuel: nat, sig: Seq<Inductive>, a: MValue, c: MClosure, arg: MValue, i: usize, j: usize, sp: Seq<MValue>)
    ensures
        spec_apply(fuel + 2, sig, MValue::Lam(Box::new(a), c), arg) == spec_eval(
            fuel,
            c.sig,
            c.env.push(arg),
            c.body,
        ),
        spec_apply(fuel + 1, sig, MValue::Constr(i, j, sp), arg) == Some(
            MValue::Constr(i, j, sp.push(arg)),
        ),
        spec_apply(fuel + 1, sig, MValue::Ind(i, sp), arg) == Some(MValue::Ind(i, sp.push(arg))),
{
}

/// Law: projecting a pair gives its component: with two more steps of
/// budget, `Fst(Pair(x, a, b))` evaluates to what `a` does and
/// `Snd(Pair(x, a, b))` to what `b` does.
pub proof fn lemma_eval_projections(
    fuel: nat,
    sig: Seq<Inductive>,
    env: Seq<MValue>,
    x: Term,
    a: Term,
    b: Term,
    vx: MValue,
    va: MValue,
    vb: MValue,
)
    requires
        spec_eval(fuel, sig, env, x) == Some(vx),
        spec_eval(fuel, sig, env, a) == Some(va),
        spec_eval(fuel, sig, env, b) == Some(vb),
    ensures
        spec_eval(
            fuel + 2,
            sig,
            env,
            Term::Fst(Box::new(Term::Pair(Box::new(x), Box::new(a), Box::new(b)))),
        ) == Some(va),
        spec_eval(
            fuel + 2,
            sig,
            env,
            Term::Snd(Box::new(Term::Pair(Box::new(x), Box::new(a), Box::new(b)))),
        ) == Some(vb),
{
    assert(spec_eval(fuel + 1, sig, env, Term::Pair(Box::new(x), Box::new(a), Box::new(b)))
        == Some(MValue::Pair(Box::new(vx), Box::new(va), Box::new(vb))));
}

/// Evaluation with at most `fuel` nested steps; the innermost binding is
/// the last of `env`. `None`: out of fuel, an unbound variable, or a
/// computation that goes wrong (applying or projecting what cannot be).
pub open spec fn spec_eval(fuel: nat, sig: Seq<Inductive>, env: Seq<MValue>, t: Term) -> Option<MValue>
    decreases fuel, 2int, 0int,
{
    if fuel == 0 {
        None
    } else {
        let f = (fuel - 1) as nat;
        match t {
            Term::Var(i) => if i < env.len() {
                Some(env[env.len() - 1 - i])
            } else {
                None
            },
            Term::Universe(n) => Some(MValue::Universe(n)),
            Term::Prop => Some(MValue::Prop),
            Term::Pi(a, b) => match spec_eval(f, sig, env, *a) {
                Some(av) => Some(MValue::Pi(Box::new(av), MClosure { env, body: *b, sig })),
                None => None,
            },
            Term::Lam(a, b) => match spec_eval(f, sig, env, *a) {
                Some(av) => Some(MValue::Lam(Box::new(av), MClosure { env, body: *b, sig })),
                None => None,
            },
            Term::Sigma(a, b) => match spec_eval(f, sig, env, *a) {
                Some(av) => Some(MValue::Sigma(Box::new(av), MClosure { env, body: *b, sig })),
                None => None,
            },
            Term::App(g, x) => match (spec_eval(f, sig, env, *g), spec_eval(f, sig, env, *x)) {
                (Some(gv), Some(xv)) => spec_apply(f, sig, gv, xv),
                _ => None,
            },
            Term::Pair(x, a, b) => match (
                spec_eval(f, sig, env, *x),
                spec_eval(f, sig, env, *a),
                spec_eval(f, sig, env, *b),
            ) {
                (Some(xv), Some(av), Some(bv)) => Some(
                    MValue::Pair(Box::new(xv), Box::new(av), Box::new(bv)),
                ),
                _ => None,
            },
            Term::Fst(p) => match spec_eval(f, sig, env, *p) {
                Some(pv) => spec_proj1(pv),
                None => None,
            },
            Term::Snd(p) => match spec_eval(f, sig, env, *p) {
                Some(pv) => spec_proj2(pv),
                None => None,
            },
            Term::Ind(i) => Some(MValue::Ind(i, Seq::empty())),
            Term::Constr(i, j) => Some(MValue::Constr(i, j, Seq::empty())),
            Term::Rec(i, n) => Some(MValue::RecApp(i, n, Seq::empty())),
            Term::Axiom(i) => Some(MValue::Neutral(MNeutral::Axiom(i))),
        }
    }
}

/// A closure's body evaluated with `arg` bound.
pub open spec fn spec_clo_apply(fuel: nat, c: MClosure, arg: MValue) -> Option<MValue>
    decreases fuel, 0int, 0int,
{
    if fuel == 0 {
        None
    } else {
        spec_eval((fuel - 1) as nat, c.sig, c.env.push(arg), c.body)
    }
}

/// Application: a λ runs its body, a neutral grows, a type former or
/// constructor collects the argument, a recursor collects it and fires
/// once it has all its arguments.
pub open spec fn spec_apply(fuel: nat, sig: Seq<Inductive>, f: MValue, arg: MValue) -> Option<MValue>
    decreases fuel, 1int, 0int,
{
    if fuel == 0 {
        None
    } else {
        let g = (fuel - 1) as nat;
        match f {
            MValue::Lam(_, c) => spec_clo_apply(g, c, arg),
            MValue::Neutral(n) => Some(MValue::Neutral(MNeutral::App(Box::new(n), Box::new(arg)))),
            MValue::Ind(i, sp) => Some(MValue::Ind(i, sp.push(arg))),
            MValue::Constr(i, j, sp) => Some(MValue::Constr(i, j, sp.push(arg))),
            MValue::RecApp(i, t, sp) => {
                let sp2 = sp.push(arg);
                if i >= sig.len() || spec_rec_arity(sig[i as int]) > usize::MAX {
                    None
                } else if sp2.len() == spec_rec_arity(sig[i as int]) {
                    spec_iota(g, sig, i, t, sp2)
                } else {
                    Some(MValue::RecApp(i, t, sp2))
                }
            },
            _ => None,
        }
    }
}

/// Applying `f` to `args[a..]` in turn.
pub open spec fn spec_apply_all(fuel: nat, sig: Seq<Inductive>, f: MValue, args: Seq<MValue>, a: int) -> Option<
    MValue,
>
    decreases fuel, 3int, args.len() - a,
{
    if a < 0 || a >= args.len() {
        Some(f)
    } else {
        match spec_apply(fuel, sig, f, args[a]) {
            Some(g) => spec_apply_all(fuel, sig, g, args, a + 1),
            None => None,
        }
    }
}

/// The recursive call on a recursive constructor argument: the recursor
/// applied to the argument's indices `idx[q..]`, evaluated in `env`.
pub open spec fn spec_ih_indices(
    fuel: nat,
    sig: Seq<Inductive>,
    env: Seq<MValue>,
    idx: Seq<Term>,
    q: int,
    ih: MValue,
) -> Option<MValue>
    decreases fuel, 3int, idx.len() - q,
{
    if q < 0 || q >= idx.len() {
        Some(ih)
    } else {
        match spec_eval(fuel, sig, env, idx[q]) {
            Some(iv) => match spec_apply(fuel, sig, ih, iv) {
                Some(ih2) => spec_ih_indices(fuel, sig, env, idx, q + 1, ih2),
                None => None,
            },
            None => None,
        }
    }
}

/// The recursive calls of the iota rule for constructor arguments `l..`:
/// each recursive argument's result is passed to the method after the
/// arguments.
pub open spec fn spec_iota_ihs(
    fuel: nat,
    sig: Seq<Inductive>,
    i: usize,
    t: u32,
    sp: Seq<MValue>,
    cargs: Seq<MValue>,
    j: int,
    l: int,
    result: MValue,
) -> Option<MValue>
    decreases fuel, 4int, cargs.len() - l,
{
    let ind = sig[i as int];
    let np = ind.params@.len();
    let k = ind.constructors@.len();
    let c = ind.constructors@[j];
    if l < 0 || np + l >= cargs.len() {
        Some(result)
    } else if l >= c.args@.len() {
        None
    } else if spec_ind_head(c.args@[l]) == Some(i) {
        if np + 1 > sp.len() || k > sp.len() - np - 1 {
            None
        } else {
            let fixed = sp.subrange(0, (np + 1 + k) as int);
            let idx = spec_spine_args(c.args@[l]);
            if idx.len() < np {
                None
            } else {
                match spec_ih_indices(
                    fuel,
                    sig,
                    cargs.subrange(0, (np + l) as int),
                    idx,
                    np as int,
                    MValue::RecApp(i, t, fixed),
                ) {
                    Some(ih) => match spec_apply(fuel, sig, ih, cargs[np + l]) {
                        Some(ih2) => match spec_apply(fuel, sig, result, ih2) {
                            Some(r2) => spec_iota_ihs(fuel, sig, i, t, sp, cargs, j, l + 1, r2),
                            None => None,
                        },
                        None => None,
                    },
                    None => None,
                }
            }
        }
    } else {
        spec_iota_ihs(fuel, sig, i, t, sp, cargs, j, l + 1, result)
    }
}

/// The recursor's computation rule on a complete spine whose last element
/// is the major premise: on constructor `j`, method `j` applied to the
/// constructor's arguments and then to the recursive results; on a neutral
/// major premise, a stuck recursor.
pub open spec fn spec_iota(fuel: nat, sig: Seq<Inductive>, i: usize, t: u32, sp: Seq<MValue>) -> Option<
    MValue,
>
    decreases fuel, 0int, 0int,
{
    if fuel == 0 || i >= sig.len() || sp.len() == 0 {
        None
    } else {
        let g = (fuel - 1) as nat;
        let ind = sig[i as int];
        let np = ind.params@.len();
        let k = ind.constructors@.len();
        match sp.last() {
            MValue::Constr(_, j, cargs) => if j >= k || np >= sp.len() || j >= sp.len() - np - 1 {
                None
            } else if cargs.len() < np {
                None
            } else {
                match spec_apply_all(g, sig, sp[np + 1 + j], cargs.subrange(np as int, cargs.len() as int), 0) {
                    Some(result) => spec_iota_ihs(g, sig, i, t, sp, cargs, j as int, 0, result),
                    None => None,
                }
            },
            MValue::Neutral(n) => Some(
                MValue::Neutral(MNeutral::Rec(i, t, sp.subrange(0, sp.len() - 1), Box::new(n))),
            ),
            _ => None,
        }
    }
}

pub fn var(level: usize) -> (r: Rc<Value>)
    ensures
        *r == Value::Neutral(Neutral::Var(level)),
        mval(*r) == mvar(level),
{
    assert(mneu(Neutral::Var(level)) == MNeutral::Var(level));
    Rc::new(Value::Neutral(Neutral::Var(level)))
}

impl Closure {
    /// Instantiates the bound variable with `arg` and evaluates the body.
    pub fn apply(&self, fuel: u64, arg: Rc<Value>) -> (r: Option<Rc<Value>>)
        ensures
            fuel == 0 ==> r is None,
            omval(r) == spec_clo_apply(fuel as nat, mclo(*self), mval(*arg)),
        decreases fuel, 0u64,
    {
        if fuel == 0 {
            return None;
        }
        let mut env = clone_env(&self.env);
        env.push(arg);
        proof {
            lemma_mvals_push(self.env@, arg);
        }
        eval_fuel(fuel - 1, &self.sig, &env, &self.body)
    }
}

/// Applies a value to an argument, firing a recursor once it has all its
/// arguments. `None` for a value that cannot be applied.
pub fn apply(fuel: u64, sig: &Rc<Sig>, f: Rc<Value>, arg: Rc<Value>) -> (r: Option<Rc<Value>>)
    ensures
        fuel == 0 ==> r is None,
        fuel > 0 ==> match *f {
            Value::Ind(i, sp) => r matches Some(v) && *v == Value::Ind(i, v->Ind_1) && (
            v->Ind_1)@ == sp@.push(arg),
            Value::Constr(i, j, sp) => r matches Some(v) && *v == Value::Constr(i, j, v->Constr_2)
                && (v->Constr_2)@ == sp@.push(arg),
            Value::Universe(_) | Value::Prop | Value::Pi(..) | Value::Sigma(..)
            | Value::Pair(..) => r is None,
            _ => true,
        },
        omval(r) == spec_apply(fuel as nat, sig@, mval(*f), mval(*arg)),
    decreases fuel, 1u64,
{
    if fuel == 0 {
        return None;
    }
    let ghost want = spec_apply(fuel as nat, sig@, mrc(&f), mrc(&arg));
    match &*f {
        Value::Lam(_, clo) => {
            let r = clo.apply(fuel - 1, arg);
            assert(omval(r) == want);
            r
        },
        Value::Neutral(n) => {
            let n2 = n.clone();
            proof {
                assert(mneu(Neutral::App(Rc::new(n2), arg)) == MNeutral::App(
                    Box::new(mneu(n2)),
                    Box::new(mval(*arg)),
                ));
            }
            Some(Rc::new(Value::Neutral(Neutral::App(Rc::new(n2), arg))))
        },
        Value::Ind(i, sp) => {
            let mut sp2 = clone_env(sp);
            sp2.push(arg);
            proof {
                lemma_mvals_push(sp@, arg);
            }
            Some(Rc::new(Value::Ind(*i, sp2)))
        },
        Value::Constr(i, j, sp) => {
            let mut sp2 = clone_env(sp);
            sp2.push(arg);
            proof {
                lemma_mvals_push(sp@, arg);
            }
            Some(Rc::new(Value::Constr(*i, *j, sp2)))
        },
        Value::RecApp(i, t, sp) => {
            let mut sp2 = clone_env(sp);
            sp2.push(arg);
            proof {
                lemma_mvals_push(sp@, arg);
                lemma_mvals_index(sp@);
            }
            if *i >= sig.len() {
                return None;
            }
            match rec_arity(&sig[*i]) {
                Some(arity) => {
                    if sp2.len() == arity {
                        let r = iota(fuel - 1, sig, *i, *t, sp2);
                        assert(omval(r) == want);
                        r
                    } else {
                        let r = Some(Rc::new(Value::RecApp(*i, *t, sp2)));
                        assert(omval(r) == want);
                        r
                    }
                },
                None => {
                    assert(want is None);
                    None
                },
            }
        },
        _ => None,
    }
}

/// The recursor's computation rule, on a complete argument spine whose last
/// element is the major premise.
#[verifier::loop_isolation(false)]
pub fn iota(fuel: u64, sig: &Rc<Sig>, i: usize, t: u32, sp: Vec<Rc<Value>>) -> (r: Option<
    Rc<Value>,
>)
    ensures
        fuel == 0 ==> r is None,
        omval(r) == spec_iota(fuel as nat, sig@, i, t, mvals(sp@)),
    decreases fuel, 0u64,
{
    if fuel == 0 || i >= sig.len() || sp.len() == 0 {
        return None;
    }
    let ghost g = (fuel - 1) as nat;
    let ghost msp = mvals(sp@);
    proof {
        lemma_mvals_index(sp@);
    }
    let ind = &sig[i];
    let np = ind.params.len();
    let k = ind.constructors.len();
    let major = sp[sp.len() - 1].clone();
    assert(mval(*major) == msp.last());
    match &*major {
        Value::Constr(_, j, cargs) => {
            let j = *j;
            if j >= k || np >= sp.len() || j >= sp.len() - np - 1 {
                return None;
            }
            let ghost mc = mvals(cargs@);
            proof {
                lemma_mvals_index(cargs@);
            }
            let c = &ind.constructors[j];
            let method = sp[np + 1 + j].clone();
            let mask = first_order_rec_mask(sig, i, j);
            if cargs.len() < np {
                return None;
            }
            let ctor_args = slice_env(cargs, np, cargs.len());
            proof {
                lemma_mvals_subrange(cargs@, np as int, cargs@.len() as int);
                lemma_mvals_index(ctor_args@);
            }
            let ghost mca = mvals(ctor_args@);
            let ghost goal1 = spec_apply_all(g, sig@, msp[np + 1 + j], mca, 0);
            let mut result = method;
            let mut a: usize = 0;
            while a < ctor_args.len()
                invariant
                    a <= ctor_args@.len(),
                    spec_apply_all(g, sig@, mval(*result), mca, a as int) == goal1,
                decreases ctor_args@.len() - a,
            {
                result = match apply(fuel - 1, sig, result, ctor_args[a].clone()) {
                    Some(v) => v,
                    None => return None,
                };
                a = a + 1;
            }
            let ghost goal2 = spec_iota_ihs(g, sig@, i, t, msp, mc, j as int, 0, mrc(&result));
            let mut l: usize = 0;
            while l < ctor_args.len()
                invariant
                    l <= ctor_args@.len(),
                    mask@.len() == c.args@.len(),
                    spec_iota_ihs(g, sig@, i, t, msp, mc, j as int, l as int, mval(*result))
                        == goal2,
                decreases ctor_args@.len() - l,
            {
                if l >= mask.len() {
                    return None;
                }
                if mask[l] {
                    if np + 1 > sp.len() || k > sp.len() - np - 1 {
                        return None;
                    }
                    let fixed = slice_env(&sp, 0, np + 1 + k);
                    if l > cargs.len() - np {
                        return None;
                    }
                    let arg_env = slice_env(cargs, 0, np + l);
                    proof {
                        lemma_mvals_subrange(sp@, 0, (np + 1 + k) as int);
                        lemma_mvals_subrange(cargs@, 0, (np + l) as int);
                    }
                    let idx_spine = spine_args(&c.args[l]);
                    let mut ih = Rc::new(Value::RecApp(i, t, fixed));
                    if idx_spine.len() < np {
                        return None;
                    }
                    let ghost menv = mvals(arg_env@);
                    let ghost goal3 = spec_ih_indices(
                        g,
                        sig@,
                        menv,
                        idx_spine@,
                        np as int,
                        mrc(&ih),
                    );
                    let mut q: usize = np;
                    while q < idx_spine.len()
                        invariant
                            np <= q <= idx_spine@.len(),
                            spec_ih_indices(g, sig@, menv, idx_spine@, q as int, mval(*ih))
                                == goal3,
                        decreases idx_spine@.len() - q,
                    {
                        let iv = match eval_fuel(fuel - 1, sig, &arg_env, &idx_spine[q]) {
                            Some(v) => v,
                            None => return None,
                        };
                        ih = match apply(fuel - 1, sig, ih, iv) {
                            Some(v) => v,
                            None => return None,
                        };
                        q = q + 1;
                    }
                    ih = match apply(fuel - 1, sig, ih, ctor_args[l].clone()) {
                        Some(v) => v,
                        None => return None,
                    };
                    result = match apply(fuel - 1, sig, result, ih) {
                        Some(v) => v,
                        None => return None,
                    };
                }
                l = l + 1;
            }
            Some(result)
        },
        Value::Neutral(n) => {
            let fixed = slice_env(&sp, 0, sp.len() - 1);
            let n2 = n.clone();
            proof {
                lemma_mvals_subrange(sp@, 0, sp@.len() - 1);
                assert(mneu(Neutral::Rec(i, t, fixed, Rc::new(n2))) == MNeutral::Rec(
                    i,
                    t,
                    mvals(fixed@),
                    Box::new(mneu(n2)),
                ));
            }
            Some(Rc::new(Value::Neutral(Neutral::Rec(i, t, fixed, Rc::new(n2)))))
        },
        _ => None,
    }
}

/// First projection; `None` on a value that is neither a pair nor neutral.
pub fn proj1(p: Rc<Value>) -> (r: Option<Rc<Value>>)
    ensures
        omval(r) == spec_proj1(mval(*p)),
        match *p {
            Value::Pair(_, a, _) => r == Some(a),
            Value::Neutral(_) => r is Some,
            _ => r is None,
        },
{
    match &*p {
        Value::Pair(_, a, _) => Some(a.clone()),
        Value::Neutral(n) => {
            let n2 = n.clone();
            proof {
                assert(mneu(Neutral::Fst(Rc::new(n2))) == MNeutral::Fst(Box::new(mneu(n2))));
            }
            Some(Rc::new(Value::Neutral(Neutral::Fst(Rc::new(n2)))))
        },
        _ => None,
    }
}

/// Second projection; `None` on a value that is neither a pair nor neutral.
pub fn proj2(p: Rc<Value>) -> (r: Option<Rc<Value>>)
    ensures
        omval(r) == spec_proj2(mval(*p)),
        match *p {
            Value::Pair(_, _, b) => r == Some(b),
            Value::Neutral(_) => r is Some,
            _ => r is None,
        },
{
    match &*p {
        Value::Pair(_, _, b) => Some(b.clone()),
        Value::Neutral(n) => {
            let n2 = n.clone();
            proof {
                assert(mneu(Neutral::Snd(Rc::new(n2))) == MNeutral::Snd(Box::new(mneu(n2))));
            }
            Some(Rc::new(Value::Neutral(Neutral::Snd(Rc::new(n2)))))
        },
        _ => None,
    }
}

/// Evaluates a term in an environment (innermost binding last).
pub fn eval_fuel(fuel: u64, sig: &Rc<Sig>, env: &Env, term: &Term) -> (r: Option<Rc<Value>>)
    ensures
        fuel == 0 ==> r is None,
        fuel > 0 ==> match *term {
            Term::Var(i) => r == (if i < env@.len() {
                Some(env@[env@.len() - 1 - i])
            } else {
                None
            }),
            Term::Universe(n) => r matches Some(v) && *v == Value::Universe(n),
            Term::Prop => r matches Some(v) && *v == Value::Prop,
            Term::Ind(i) => r matches Some(v) && *v == Value::Ind(i, v->Ind_1) && (
            v->Ind_1)@.len() == 0,
            Term::Constr(i, j) => r matches Some(v) && *v == Value::Constr(i, j, v->Constr_2) && (
            v->Constr_2)@.len() == 0,
            Term::Rec(i, n) => r matches Some(v) && *v == Value::RecApp(i, n, v->RecApp_2) && (
            v->RecApp_2)@.len() == 0,
            Term::Axiom(i) => r matches Some(v) && *v == Value::Neutral(Neutral::Axiom(i)),
            _ => true,
        },
        omval(r) == spec_eval(fuel as nat, sig@, mvals(env@), *term),
    decreases fuel, 2u64,
{
    if fuel == 0 {
        return None;
    }
    proof {
        lemma_mvals_index(env@);
    }
    match term {
        Term::Var(i) => {
            if *i < env.len() {
                Some(env[env.len() - 1 - *i].clone())
            } else {
                None
            }
        },
        Term::Universe(n) => Some(Rc::new(Value::Universe(*n))),
        Term::Prop => Some(Rc::new(Value::Prop)),
        Term::Pi(a, b) => {
            let av = eval_fuel(fuel - 1, sig, env, a)?;
            let clo = Closure { env: clone_env(env), body: (**b).clone(), sig: sig.clone() };
            proof {
                assert(mclo(clo) == MClosure { env: mvals(env@), body: **b, sig: sig@ });
            }
            Some(Rc::new(Value::Pi(av, clo)))
        },
        Term::Lam(a, t) => {
            let av = eval_fuel(fuel - 1, sig, env, a)?;
            let clo = Closure { env: clone_env(env), body: (**t).clone(), sig: sig.clone() };
            proof {
                assert(mclo(clo) == MClosure { env: mvals(env@), body: **t, sig: sig@ });
            }
            Some(Rc::new(Value::Lam(av, clo)))
        },
        Term::App(f, x) => {
            let fv = eval_fuel(fuel - 1, sig, env, f)?;
            let xv = eval_fuel(fuel - 1, sig, env, x)?;
            apply(fuel - 1, sig, fv, xv)
        },
        Term::Sigma(a, b) => {
            let av = eval_fuel(fuel - 1, sig, env, a)?;
            let clo = Closure { env: clone_env(env), body: (**b).clone(), sig: sig.clone() };
            proof {
                assert(mclo(clo) == MClosure { env: mvals(env@), body: **b, sig: sig@ });
            }
            Some(Rc::new(Value::Sigma(av, clo)))
        },
        Term::Pair(s, a, b) => {
            let sv = eval_fuel(fuel - 1, sig, env, s)?;
            let av = eval_fuel(fuel - 1, sig, env, a)?;
            let bv = eval_fuel(fuel - 1, sig, env, b)?;
            Some(Rc::new(Value::Pair(sv, av, bv)))
        },
        Term::Fst(p) => {
            let pv = eval_fuel(fuel - 1, sig, env, p)?;
            proj1(pv)
        },
        Term::Snd(p) => {
            let pv = eval_fuel(fuel - 1, sig, env, p)?;
            proj2(pv)
        },
        Term::Ind(i) => {
            let sp: Vec<Rc<Value>> = Vec::new();
            assert(mvals(sp@) == Seq::<MValue>::empty());
            Some(Rc::new(Value::Ind(*i, sp)))
        },
        Term::Constr(i, j) => {
            let sp: Vec<Rc<Value>> = Vec::new();
            assert(mvals(sp@) == Seq::<MValue>::empty());
            Some(Rc::new(Value::Constr(*i, *j, sp)))
        },
        Term::Rec(i, t) => {
            let sp: Vec<Rc<Value>> = Vec::new();
            assert(mvals(sp@) == Seq::<MValue>::empty());
            Some(Rc::new(Value::RecApp(*i, *t, sp)))
        },
        Term::Axiom(i) => {
            assert(mneu(Neutral::Axiom(*i)) == MNeutral::Axiom(*i));
            Some(Rc::new(Value::Neutral(Neutral::Axiom(*i))))
        },
    }
}

/// Read-back with at most `fuel` nested steps: a binder's body is read
/// back by applying its closure to a fresh variable of level `level`.
/// `None`: out of fuel, a variable of a level not in scope, or a closure
/// whose body fails to evaluate.
pub open spec fn spec_quote(fuel: nat, level: usize, v: MValue) -> Option<Term>
    decreases fuel, 1int, 0int,
{
    if fuel == 0 {
        None
    } else {
        let f = (fuel - 1) as nat;
        match v {
            MValue::Neutral(n) => spec_quote_neutral(f, level, n),
            MValue::Universe(n) => Some(Term::Universe(n)),
            MValue::Prop => Some(Term::Prop),
            MValue::Pi(a, c) => if level == usize::MAX {
                None
            } else {
                match (spec_quote(f, level, *a), spec_clo_apply(f, c, mvar(level))) {
                    (Some(qa), Some(bv)) => match spec_quote(f, (level + 1) as usize, bv) {
                        Some(qb) => Some(Term::Pi(Box::new(qa), Box::new(qb))),
                        None => None,
                    },
                    _ => None,
                }
            },
            MValue::Lam(a, c) => if level == usize::MAX {
                None
            } else {
                match (spec_quote(f, level, *a), spec_clo_apply(f, c, mvar(level))) {
                    (Some(qa), Some(bv)) => match spec_quote(f, (level + 1) as usize, bv) {
                        Some(qb) => Some(Term::Lam(Box::new(qa), Box::new(qb))),
                        None => None,
                    },
                    _ => None,
                }
            },
            MValue::Sigma(a, c) => if level == usize::MAX {
                None
            } else {
                match (spec_quote(f, level, *a), spec_clo_apply(f, c, mvar(level))) {
                    (Some(qa), Some(bv)) => match spec_quote(f, (level + 1) as usize, bv) {
                        Some(qb) => Some(Term::Sigma(Box::new(qa), Box::new(qb))),
                        None => None,
                    },
                    _ => None,
                }
            },
            MValue::Pair(x, a, b) => match (
                spec_quote(f, level, *x),
                spec_quote(f, level, *a),
                spec_quote(f, level, *b),
            ) {
                (Some(qx), Some(qa), Some(qb)) => Some(
                    Term::Pair(Box::new(qx), Box::new(qa), Box::new(qb)),
                ),
                _ => None,
            },
            MValue::Ind(i, sp) => spec_quote_spine(f, level, Term::Ind(i), sp),
            MValue::Constr(i, j, sp) => spec_quote_spine(f, level, Term::Constr(i, j), sp),
            MValue::RecApp(i, t, sp) => spec_quote_spine(f, level, Term::Rec(i, t), sp),
        }
    }
}

/// `head` applied to the read-back of each value of a spine.
pub open spec fn spec_quote_spine(fuel: nat, level: usize, head: Term, spine: Seq<MValue>) -> Option<
    Term,
>
    decreases fuel, 0int, 0int,
{
    if spine.len() == 0 {
        Some(head)
    } else if fuel == 0 {
        None
    } else {
        spec_quote_args((fuel - 1) as nat, level, head, spine, 0)
    }
}

/// `out` applied to the read-back of `spine[i..]`.
pub open spec fn spec_quote_args(
    fuel: nat,
    level: usize,
    out: Term,
    spine: Seq<MValue>,
    i: int,
) -> Option<Term>
    decreases fuel, 2int, spine.len() - i,
{
    if i < 0 || i >= spine.len() {
        Some(out)
    } else {
        match spec_quote(fuel, level, spine[i]) {
            Some(q) => spec_quote_args(
                fuel,
                level,
                Term::App(Box::new(out), Box::new(q)),
                spine,
                i + 1,
            ),
            None => None,
        }
    }
}

/// Read-back of a neutral value; the variable of level `l` becomes index
/// `level - 1 - l`.
pub open spec fn spec_quote_neutral(fuel: nat, level: usize, n: MNeutral) -> Option<Term>
    decreases fuel, 1int, 0int,
{
    if fuel == 0 {
        None
    } else {
        let f = (fuel - 1) as nat;
        match n {
            MNeutral::Var(l) => if l < level {
                Some(Term::Var((level - 1 - l) as usize))
            } else {
                None
            },
            MNeutral::App(g, a) => match (spec_quote_neutral(f, level, *g), spec_quote(f, level, *a)) {
                (Some(qg), Some(qa)) => Some(Term::App(Box::new(qg), Box::new(qa))),
                _ => None,
            },
            MNeutral::Fst(p) => match spec_quote_neutral(f, level, *p) {
                Some(q) => Some(Term::Fst(Box::new(q))),
                None => None,
            },
            MNeutral::Snd(p) => match spec_quote_neutral(f, level, *p) {
                Some(q) => Some(Term::Snd(Box::new(q))),
                None => None,
            },
            MNeutral::Rec(i, t, fixed, major) => match (
                spec_quote_spine(f, level, Term::Rec(i, t), fixed),
                spec_quote_neutral(f, level, *major),
            ) {
                (Some(h), Some(qm)) => Some(Term::App(Box::new(h), Box::new(qm))),
                _ => None,
            },
            MNeutral::Axiom(i) => Some(Term::Axiom(i)),
        }
    }
}

/// Reads a value back into a term in normal form; `level` is the number of
/// variables in scope.
pub fn quote_fuel(fuel: u64, level: usize, value: &Rc<Value>) -> (r: Option<Term>)
    ensures
        fuel == 0 ==> r is None,
        fuel > 0 ==> match **value {
            Value::Universe(n) => r == Some(Term::Universe(n)),
            Value::Prop => r == Some(Term::Prop),
            _ => true,
        },
        r == spec_quote(fuel as nat, level, mval(**value)),
    decreases fuel,
{
    if fuel == 0 {
        return None;
    }
    match &**value {
        Value::Neutral(n) => quote_neutral(fuel - 1, level, n),
        Value::Universe(n) => Some(Term::Universe(*n)),
        Value::Prop => Some(Term::Prop),
        Value::Pi(a, clo) => {
            if level == usize::MAX {
                return None;
            }
            let qa = quote_fuel(fuel - 1, level, a)?;
            let bv = clo.apply(fuel - 1, var(level))?;
            let qb = quote_fuel(fuel - 1, level + 1, &bv)?;
            Some(Term::Pi(Box::new(qa), Box::new(qb)))
        },
        Value::Lam(a, clo) => {
            if level == usize::MAX {
                return None;
            }
            let qa = quote_fuel(fuel - 1, level, a)?;
            let bv = clo.apply(fuel - 1, var(level))?;
            let qb = quote_fuel(fuel - 1, level + 1, &bv)?;
            Some(Term::Lam(Box::new(qa), Box::new(qb)))
        },
        Value::Sigma(a, clo) => {
            if level == usize::MAX {
                return None;
            }
            let qa = quote_fuel(fuel - 1, level, a)?;
            let bv = clo.apply(fuel - 1, var(level))?;
            let qb = quote_fuel(fuel - 1, level + 1, &bv)?;
            Some(Term::Sigma(Box::new(qa), Box::new(qb)))
        },
        Value::Pair(s, a, b) => {
            let qs = quote_fuel(fuel - 1, level, s)?;
            let qa = quote_fuel(fuel - 1, level, a)?;
            let qb = quote_fuel(fuel - 1, level, b)?;
            Some(Term::Pair(Box::new(qs), Box::new(qa), Box::new(qb)))
        },
        Value::Ind(i, sp) => quote_spine(fuel - 1, level, Term::Ind(*i), sp),
        Value::Constr(i, j, sp) => quote_spine(fuel - 1, level, Term::Constr(*i, *j), sp),
        Value::RecApp(i, t, sp) => quote_spine(fuel - 1, level, Term::Rec(*i, *t), sp),
    }
}

/// Quotes each value of a spine and applies `head` to the results.
pub fn quote_spine(fuel: u64, level: usize, head: Term, spine: &Vec<Rc<Value>>) -> (r: Option<
    Term,
>)
    ensures
        fuel == 0 && spine@.len() > 0 ==> r is None,
        spine@.len() == 0 ==> r == Some(head),
        r == spec_quote_spine(fuel as nat, level, head, mvals(spine@)),
    decreases fuel,
{
    proof {
        lemma_mvals_index(spine@);
    }
    if spine.len() == 0 {
        return Some(head);
    }
    if fuel == 0 {
        return None;
    }
    let ghost ms = mvals(spine@);
    let ghost goal = spec_quote_args((fuel - 1) as nat, level, head, ms, 0);
    let mut out = head;
    let mut i: usize = 0;
    while i < spine.len()
        invariant
            i <= spine@.len(),
            fuel > 0,
            spine@.len() == 0 ==> out == head,
            ms == mvals(spine@),
            ms.len() == spine@.len(),
            forall|k: int| 0 <= k < spine@.len() ==> #[trigger] ms[k] == mval(*spine@[k]),
            spec_quote_args((fuel - 1) as nat, level, out, ms, i as int) == goal,
            goal == spec_quote_spine(fuel as nat, level, head, ms),
        decreases spine@.len() - i,
    {
        let q = quote_fuel(fuel - 1, level, &spine[i])?;
        out = Term::App(Box::new(out), Box::new(q));
        i = i + 1;
    }
    Some(out)
}

/// Reads back a neutral value; variables become indices `level - 1 - l`.
pub fn quote_neutral(fuel: u64, level: usize, neutral: &Neutral) -> (r: Option<Term>)
    ensures
        fuel == 0 ==> r is None,
        fuel > 0 ==> match *neutral {
            Neutral::Var(l) => r == (if l < level {
                Some(Term::Var((level - 1 - l) as usize))
            } else {
                None
            }),
            Neutral::Axiom(i) => r == Some(Term::Axiom(i)),
            _ => true,
        },
        r == spec_quote_neutral(fuel as nat, level, mneu(*neutral)),
    decreases fuel,
{
    if fuel == 0 {
        return None;
    }
    match neutral {
        Neutral::Var(l) => {
            if *l < level {
                Some(Term::Var(level - 1 - *l))
            } else {
                None
            }
        },
        Neutral::App(f, a) => {
            let qf = quote_neutral(fuel - 1, level, f)?;
            let qa = quote_fuel(fuel - 1, level, a)?;
            Some(Term::App(Box::new(qf), Box::new(qa)))
        },
        Neutral::Fst(n) => {
            let q = quote_neutral(fuel - 1, level, n)?;
            Some(Term::Fst(Box::new(q)))
        },
        Neutral::Snd(n) => {
            let q = quote_neutral(fuel - 1, level, n)?;
            Some(Term::Snd(Box::new(q)))
        },
        Neutral::Rec(i, t, fixed, major) => {
            let head = quote_spine(fuel - 1, level, Term::Rec(*i, *t), fixed)?;
            let qm = quote_neutral(fuel - 1, level, major)?;
            Some(Term::App(Box::new(head), Box::new(qm)))
        },
        Neutral::Axiom(i) => Some(Term::Axiom(*i)),
    }
}

} // verus!
