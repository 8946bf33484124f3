use std::rc::Rc;
use vstd::prelude::*;

use crate::kernel::{
    infer_fuel, is_prop, lemma_mctx, mctx, need, spec_bind, spec_infer, spec_is_prop, spec_need, Context,
    KernelError, MCtx,
};
use crate::formers::spec_nrec;
use crate::term::{spec_ind_head, spec_spine_args, spine_args, Inductive, Sig, Term};
use crate::value::{
    eval_fuel, first_order_rec_mask, mval, mvar, rec_arity, spec_clo_apply, spec_eval,
    spec_rec_arity, var, MValue, FUEL,
};

verus! {

/// Erased terms: types and proofs become `Box`, the computational skeleton
/// remains.
#[derive(Debug, PartialEq)]
pub enum ETerm {
    Box,
    Var(usize),
    Lam(Box<ETerm>),
    App(Box<ETerm>, Box<ETerm>),
    Pair(Box<ETerm>, Box<ETerm>),
    Fst(Box<ETerm>),
    Snd(Box<ETerm>),
    Constr(usize, usize),
    Rec(usize),
}

impl Clone for ETerm {
    fn clone(&self) -> (res: Self)
        ensures
            res == *self,
        decreases self,
    {
        match self {
            ETerm::Box => ETerm::Box,
            ETerm::Var(i) => ETerm::Var(*i),
            ETerm::Lam(b) => ETerm::Lam(Box::new((**b).clone())),
            ETerm::App(f, x) => ETerm::App(Box::new((**f).clone()), Box::new((**x).clone())),
            ETerm::Pair(a, b) => ETerm::Pair(Box::new((**a).clone()), Box::new((**b).clone())),
            ETerm::Fst(p) => ETerm::Fst(Box::new((**p).clone())),
            ETerm::Snd(p) => ETerm::Snd(Box::new((**p).clone())),
            ETerm::Constr(i, j) => ETerm::Constr(*i, *j),
            ETerm::Rec(i) => ETerm::Rec(*i),
        }
    }
}

/// Values of the erased evaluator.
#[derive(Clone)]
pub enum EValue {
    Box,
    Neutral(ENeutral),
    Lam(EClosure),
    Pair(Rc<EValue>, Rc<EValue>),
    Constr(usize, usize, Vec<Rc<EValue>>),
    RecApp(usize, Vec<Rc<EValue>>),
}

pub enum ENeutral {
    Var(usize),
    App(Rc<ENeutral>, Rc<EValue>),
    Fst(Rc<ENeutral>),
    Snd(Rc<ENeutral>),
    Rec(usize, Vec<Rc<EValue>>, Rc<ENeutral>),
}

#[derive(Clone)]
pub struct EClosure {
    pub(crate) env: Vec<Rc<EValue>>,
    pub(crate) body: ETerm,
    pub(crate) sig: Rc<Sig>,
}

pub type EEnv = Vec<Rc<EValue>>;

impl Clone for ENeutral {
    fn clone(&self) -> (res: Self)
        ensures
            emneu(res) == emneu(*self),
    {
        match self {
            ENeutral::Var(l) => ENeutral::Var(*l),
            ENeutral::App(f, a) => ENeutral::App(f.clone(), a.clone()),
            ENeutral::Fst(n) => ENeutral::Fst(n.clone()),
            ENeutral::Snd(n) => ENeutral::Snd(n.clone()),
            ENeutral::Rec(i, fixed, major) => {
                let f2 = clone_eenv(fixed);
                proof {
                    lemma_emvals_eq(f2@, fixed@);
                }
                ENeutral::Rec(*i, f2, major.clone())
            },
        }
    }
}

/// What an erased value denotes: the same tree, with sequences where the
/// value holds vectors and plain values where it holds shared pointers.
pub enum EMValue {
    Box,
    Neutral(EMNeutral),
    Lam(EMClosure),
    Pair(Box<EMValue>, Box<EMValue>),
    Constr(usize, usize, Seq<EMValue>),
    RecApp(usize, Seq<EMValue>),
}

pub enum EMNeutral {
    Var(usize),
    App(Box<EMNeutral>, Box<EMValue>),
    Fst(Box<EMNeutral>),
    Snd(Box<EMNeutral>),
    Rec(usize, Seq<EMValue>, Box<EMNeutral>),
}

pub struct EMClosure {
    pub env: Seq<EMValue>,
    pub body: ETerm,
    pub sig: Seq<Inductive>,
}

pub open spec fn emval(v: EValue) -> EMValue
    decreases v,
{
    match v {
        EValue::Box => EMValue::Box,
        EValue::Neutral(n) => EMValue::Neutral(emneu(n)),
        EValue::Lam(c) => EMValue::Lam(emclo(c)),
        EValue::Pair(a, b) => EMValue::Pair(Box::new(emval(*a)), Box::new(emval(*b))),
        EValue::Constr(i, j, sp) => EMValue::Constr(i, j, emvals(sp@)),
        EValue::RecApp(i, sp) => EMValue::RecApp(i, emvals(sp@)),
    }
}

pub open spec fn emvals(s: Seq<Rc<EValue>>) -> Seq<EMValue>
    decreases s,
{
    if s.len() == 0 {
        Seq::empty()
    } else {
        emvals(s.drop_last()).push(emval(*s.last()))
    }
}

pub open spec fn emneu(n: ENeutral) -> EMNeutral
    decreases n,
{
    match n {
        ENeutral::Var(l) => EMNeutral::Var(l),
        ENeutral::App(f, a) => EMNeutral::App(Box::new(emneu(*f)), Box::new(emval(*a))),
        ENeutral::Fst(p) => EMNeutral::Fst(Box::new(emneu(*p))),
        ENeutral::Snd(p) => EMNeutral::Snd(Box::new(emneu(*p))),
        ENeutral::Rec(i, fixed, major) => EMNeutral::Rec(
            i,
            emvals(fixed@),
            Box::new(emneu(*major)),
        ),
    }
}

pub closed spec fn emclo(c: EClosure) -> EMClosure
    decreases c,
{
    EMClosure { env: emvals(c.env@), body: c.body, sig: c.sig@ }
}

pub open spec fn emrc(v: &Rc<EValue>) -> EMValue {
    emval(**v)
}

pub open spec fn eomval(o: Option<Rc<EValue>>) -> Option<EMValue> {
    match o {
        Some(v) => Some(emval(*v)),
        None => None,
    }
}

pub proof fn lemma_emvals_index(s: Seq<Rc<EValue>>)
    ensures
        emvals(s).len() == s.len(),
        forall|k: int| 0 <= k < s.len() ==> #[trigger] emvals(s)[k] == emval(*s[k]),
    decreases s.len(),
{
    if s.len() > 0 {
        lemma_emvals_index(s.drop_last());
    }
}

pub proof fn lemma_emvals_eq(a: Seq<Rc<EValue>>, b: Seq<Rc<EValue>>)
    requires
        a == b,
    ensures
        emvals(a) == emvals(b),
{
}

pub proof fn lemma_emvals_subrange(s: Seq<Rc<EValue>>, lo: int, hi: int)
    requires
        0 <= lo <= hi <= s.len(),
    ensures
        emvals(s.subrange(lo, hi)) == emvals(s).subrange(lo, hi),
{
    lemma_emvals_index(s);
    lemma_emvals_index(s.subrange(lo, hi));
    assert(emvals(s.subrange(lo, hi)) =~= emvals(s).subrange(lo, hi));
}

pub proof fn lemma_emvals_push(s: Seq<Rc<EValue>>, x: Rc<EValue>)
    ensures
        emvals(s.push(x)) == emvals(s).push(emval(*x)),
{
    assert(s.push(x).drop_last() =~= s);
}

pub open spec fn emvar(level: usize) -> EMValue {
    EMValue::Neutral(EMNeutral::Var(level))
}

pub open spec fn spec_eproj1(p: EMValue) -> Option<EMValue> {
    match p {
        EMValue::Box => Some(EMValue::Box),
        EMValue::Pair(a, _) => Some(*a),
        EMValue::Neutral(n) => Some(EMValue::Neutral(EMNeutral::Fst(Box::new(n)))),
        _ => None,
    }
}

pub open spec fn spec_eproj2(p: EMValue) -> Option<EMValue> {
    match p {
        EMValue::Box => Some(EMValue::Box),
        EMValue::Pair(_, b) => Some(*b),
        EMValue::Neutral(n) => Some(EMValue::Neutral(EMNeutral::Snd(Box::new(n)))),
        _ => None,
    }
}

/// Erased evaluation with at most `fuel` nested steps (innermost binding
/// last in `env`); `None`: out of fuel, an unbound variable, or a
/// computation that goes wrong.
pub open spec fn spec_eeval(fuel: nat, sig: Seq<Inductive>, env: Seq<EMValue>, t: ETerm) -> Option<
    EMValue,
>
    decreases fuel, 2int, 0int,
{
    if fuel == 0 {
        None
    } else {
        let f = (fuel - 1) as nat;
        match t {
            ETerm::Box => Some(EMValue::Box),
            ETerm::Var(i) => if i < env.len() {
                Some(env[env.len() - 1 - i])
            } else {
                None
            },
            ETerm::Lam(b) => Some(EMValue::Lam(EMClosure { env, body: *b, sig })),
            ETerm::App(g, x) => match (spec_eeval(f, sig, env, *g), spec_eeval(f, sig, env, *x)) {
                (Some(gv), Some(xv)) => spec_eapply(f, sig, gv, xv),
                _ => None,
            },
            ETerm::Pair(a, b) => match (spec_eeval(f, sig, env, *a), spec_eeval(f, sig, env, *b)) {
                (Some(av), Some(bv)) => Some(EMValue::Pair(Box::new(av), Box::new(bv))),
                _ => None,
            },
            ETerm::Fst(p) => match spec_eeval(f, sig, env, *p) {
                Some(pv) => spec_eproj1(pv),
                None => None,
            },
            ETerm::Snd(p) => match spec_eeval(f, sig, env, *p) {
                Some(pv) => spec_eproj2(pv),
                None => None,
            },
            ETerm::Constr(i, j) => Some(EMValue::Constr(i, j, Seq::empty())),
            ETerm::Rec(i) => Some(EMValue::RecApp(i, Seq::empty())),
        }
    }
}

pub open spec fn spec_eclo_apply(fuel: nat, c: EMClosure, arg: EMValue) -> Option<EMValue>
    decreases fuel, 0int, 0int,
{
    if fuel == 0 {
        None
    } else {
        spec_eeval((fuel - 1) as nat, c.sig, c.env.push(arg), c.body)
    }
}

/// Erased application: `Box` absorbs its argument, a λ runs its body, a
/// neutral grows, a constructor collects the argument, a recursor collects
/// it and fires once it has all its arguments.
pub open spec fn spec_eapply(fuel: nat, sig: Seq<Inductive>, f: EMValue, arg: EMValue) -> Option<
    EMValue,
>
    decreases fuel, 1int, 0int,
{
    if fuel == 0 {
        None
    } else {
        let g = (fuel - 1) as nat;
        match f {
            EMValue::Box => Some(EMValue::Box),
            EMValue::Lam(c) => spec_eclo_apply(g, c, arg),
            EMValue::Neutral(n) => Some(
                EMValue::Neutral(EMNeutral::App(Box::new(n), Box::new(arg))),
            ),
            EMValue::Constr(i, j, sp) => Some(EMValue::Constr(i, j, sp.push(arg))),
            EMValue::RecApp(i, sp) => {
                let sp2 = sp.push(arg);
                if i >= sig.len() || spec_rec_arity(sig[i as int]) > usize::MAX {
                    None
                } else if sp2.len() == spec_rec_arity(sig[i as int]) {
                    spec_eiota(g, sig, i, sp2)
                } else {
                    Some(EMValue::RecApp(i, sp2))
                }
            },
            EMValue::Pair(..) => None,
        }
    }
}

/// An index expression of a constructor argument type, evaluated in the
/// erased world: type formers and sorts become `Box`.
pub open spec fn spec_eindex(fuel: nat, sig: Seq<Inductive>, env: Seq<EMValue>, t: Term) -> Option<
    EMValue,
>
    decreases fuel, 2int, 0int,
{
    if fuel == 0 {
        None
    } else {
        let f = (fuel - 1) as nat;
        match t {
            Term::Var(i) => if i < env.len() {
                Some(env[env.len() - 1 - i])
            } else {
                None
            },
            Term::Constr(i, j) => Some(EMValue::Constr(i, j, Seq::empty())),
            Term::App(g, x) => match (spec_eindex(f, sig, env, *g), spec_eindex(f, sig, env, *x)) {
                (Some(gv), Some(xv)) => spec_eapply(f, sig, gv, xv),
                _ => None,
            },
            Term::Ind(_) | Term::Universe(_) | Term::Prop | Term::Pi(..) | Term::Sigma(..) => Some(
                EMValue::Box,
            ),
            _ => None,
        }
    }
}

pub open spec fn spec_eapply_all(
    fuel: nat,
    sig: Seq<Inductive>,
    f: EMValue,
    args: Seq<EMValue>,
    a: int,
) -> Option<EMValue>
    decreases fuel, 3int, args.len() - a,
{
    if a < 0 || a >= args.len() {
        Some(f)
    } else {
        match spec_eapply(fuel, sig, f, args[a]) {
            Some(g) => spec_eapply_all(fuel, sig, g, args, a + 1),
            None => None,
        }
    }
}

/// Applying `f` to `Box`, `n` times.
pub open spec fn spec_eapply_boxes(fuel: nat, sig: Seq<Inductive>, f: EMValue, n: nat) -> Option<
    EMValue,
>
    decreases fuel, 3int, n,
{
    if n == 0 {
        Some(f)
    } else {
        match spec_eapply(fuel, sig, f, EMValue::Box) {
            Some(g) => spec_eapply_boxes(fuel, sig, g, (n - 1) as nat),
            None => None,
        }
    }
}

pub open spec fn spec_eih_indices(
    fuel: nat,
    sig: Seq<Inductive>,
    env: Seq<EMValue>,
    idx: Seq<Term>,
    q: int,
    ih: EMValue,
) -> Option<EMValue>
    decreases fuel, 3int, idx.len() - q,
{
    if q < 0 || q >= idx.len() {
        Some(ih)
    } else {
        match spec_eindex(fuel, sig, env, idx[q]) {
            Some(iv) => match spec_eapply(fuel, sig, ih, iv) {
                Some(ih2) => spec_eih_indices(fuel, sig, env, idx, q + 1, ih2),
                None => None,
            },
            None => None,
        }
    }
}

pub open spec fn spec_eiota_ihs(
    fuel: nat,
    sig: Seq<Inductive>,
    i: usize,
    sp: Seq<EMValue>,
    cargs: Seq<EMValue>,
    j: int,
    l: int,
    result: EMValue,
) -> Option<EMValue>
    decreases fuel, 4int, cargs.len() - l,
{
    let ind = sig[i as int];
    let np = ind.params@.len();
    let k = ind.constructors@.len();
    let c = ind.constructors@[j];
    if l < 0 || np + l >= cargs.len() {
        Some(result)
    } else if l >= c.args@.len() {
        None
    } else if spec_ind_head(c.args@[l]) == Some(i) {
        if np + 1 > sp.len() || k > sp.len() - np - 1 {
            None
        } else {
            let fixed = sp.subrange(0, (np + 1 + k) as int);
            let idx = spec_spine_args(c.args@[l]);
            if idx.len() < np {
                None
            } else {
                match spec_eih_indices(
                    fuel,
                    sig,
                    cargs.subrange(0, (np + l) as int),
                    idx,
                    np as int,
                    EMValue::RecApp(i, fixed),
                ) {
                    Some(ih) => match spec_eapply(fuel, sig, ih, cargs[np + l]) {
                        Some(ih2) => match spec_eapply(fuel, sig, result, ih2) {
                            Some(r2) => spec_eiota_ihs(fuel, sig, i, sp, cargs, j, l + 1, r2),
                            None => None,
                        },
                        None => None,
                    },
                    None => None,
                }
            }
        }
    } else {
        spec_eiota_ihs(fuel, sig, i, sp, cargs, j, l + 1, result)
    }
}

/// The erased recursor's computation rule on a complete spine whose last
/// element is the major premise; a boxed major premise (a proof of a
/// subsingleton) selects the only constructor, every argument and every
/// recursive result being `Box`.
pub open spec fn spec_eiota(fuel: nat, sig: Seq<Inductive>, i: usize, sp: Seq<EMValue>) -> Option<
    EMValue,
>
    decreases fuel, 0int, 0int,
{
    if fuel == 0 || i >= sig.len() || sp.len() == 0 {
        None
    } else {
        let g = (fuel - 1) as nat;
        let ind = sig[i as int];
        let np = ind.params@.len();
        let k = ind.constructors@.len();
        match sp.last() {
            EMValue::Constr(_, j, cargs) => if j >= k || np >= sp.len() || j >= sp.len() - np - 1 {
                None
            } else if cargs.len() < np {
                None
            } else {
                match spec_eapply_all(
                    g,
                    sig,
                    sp[np + 1 + j],
                    cargs.subrange(np as int, cargs.len() as int),
                    0,
                ) {
                    Some(result) => spec_eiota_ihs(g, sig, i, sp, cargs, j as int, 0, result),
                    None => None,
                }
            },
            EMValue::Neutral(n) => Some(
                EMValue::Neutral(EMNeutral::Rec(i, sp.subrange(0, sp.len() - 1), Box::new(n))),
            ),
            EMValue::Box => if k == 0 || np >= sp.len() - 1 {
                None
            } else {
                let args = ind.constructors@[0].args@;
                spec_eapply_boxes(
                    g,
                    sig,
                    sp[(np + 1) as int],
                    (args.len() + spec_nrec(i, args, args.len() as int)) as nat,
                )
            },
            _ => None,
        }
    }
}

/// Erased read-back with at most `fuel` nested steps.
pub open spec fn spec_equote(fuel: nat, level: usize, v: EMValue) -> Option<ETerm>
    decreases fuel, 1int, 0int,
{
    if fuel == 0 {
        None
    } else {
        let f = (fuel - 1) as nat;
        match v {
            EMValue::Box => Some(ETerm::Box),
            EMValue::Neutral(n) => spec_equote_neutral(f, level, n),
            EMValue::Lam(c) => if level == usize::MAX {
                None
            } else {
                match spec_eclo_apply(f, c, emvar(level)) {
                    Some(bv) => match spec_equote(f, (level + 1) as usize, bv) {
                        Some(qb) => Some(ETerm::Lam(Box::new(qb))),
                        None => None,
                    },
                    None => None,
                }
            },
            EMValue::Pair(a, b) => match (spec_equote(f, level, *a), spec_equote(f, level, *b)) {
                (Some(qa), Some(qb)) => Some(ETerm::Pair(Box::new(qa), Box::new(qb))),
                _ => None,
            },
            EMValue::Constr(i, j, sp) => spec_equote_spine(f, level, ETerm::Constr(i, j), sp),
            EMValue::RecApp(i, sp) => spec_equote_spine(f, level, ETerm::Rec(i), sp),
        }
    }
}

pub open spec fn spec_equote_spine(fuel: nat, level: usize, head: ETerm, spine: Seq<EMValue>) -> Option<
    ETerm,
>
    decreases fuel, 0int, 0int,
{
    if spine.len() == 0 {
        Some(head)
    } else if fuel == 0 {
        None
    } else {
        spec_equote_args((fuel - 1) as nat, level, head, spine, 0)
    }
}

pub open spec fn spec_equote_args(
    fuel: nat,
    level: usize,
    out: ETerm,
    spine: Seq<EMValue>,
    i: int,
) -> Option<ETerm>
    decreases fuel, 2int, spine.len() - i,
{
    if i < 0 || i >= spine.len() {
        Some(out)
    } else {
        match spec_equote(fuel, level, spine[i]) {
            Some(q) => spec_equote_args(
                fuel,
                level,
                ETerm::App(Box::new(out), Box::new(q)),
                spine,
                i + 1,
            ),
            None => None,
        }
    }
}

pub open spec fn spec_equote_neutral(fuel: nat, level: usize, n: EMNeutral) -> Option<ETerm>
    decreases fuel, 1int, 0int,
{
    if fuel == 0 {
        None
    } else {
        let f = (fuel - 1) as nat;
        match n {
            EMNeutral::Var(l) => if l < level {
                Some(ETerm::Var((level - 1 - l) as usize))
            } else {
                None
            },
            EMNeutral::App(g, a) => match (
                spec_equote_neutral(f, level, *g),
                spec_equote(f, level, *a),
            ) {
                (Some(qg), Some(qa)) => Some(ETerm::App(Box::new(qg), Box::new(qa))),
                _ => None,
            },
            EMNeutral::Fst(p) => match spec_equote_neutral(f, level, *p) {
                Some(q) => Some(ETerm::Fst(Box::new(q))),
                None => None,
            },
            EMNeutral::Snd(p) => match spec_equote_neutral(f, level, *p) {
                Some(q) => Some(ETerm::Snd(Box::new(q))),
                None => None,
            },
            EMNeutral::Rec(i, fixed, major) => match (
                spec_equote_spine(f, level, ETerm::Rec(i), fixed),
                spec_equote_neutral(f, level, *major),
            ) {
                (Some(h), Some(qm)) => Some(ETerm::App(Box::new(h), Box::new(qm))),
                _ => None,
            },
        }
    }
}


/// `e` is the erasure of `t`: either `Box`, or the same constructor with
/// erased subterms (binder types and pair annotations dropped, the
/// recursor's target sort forgotten). Types never survive erasure.
pub open spec fn spec_erases_to(t: Term, e: ETerm) -> bool
    decreases t,
{
    match e {
        ETerm::Box => true,
        _ => match t {
            Term::Var(i) => e == ETerm::Var(i),
            Term::Lam(_, b) => match e {
                ETerm::Lam(eb) => spec_erases_to(*b, *eb),
                _ => false,
            },
            Term::App(f, x) => match e {
                ETerm::App(ef, ex) => spec_erases_to(*f, *ef) && spec_erases_to(*x, *ex),
                _ => false,
            },
            Term::Pair(_, a, b) => match e {
                ETerm::Pair(ea, eb) => spec_erases_to(*a, *ea) && spec_erases_to(*b, *eb),
                _ => false,
            },
            Term::Fst(p) => match e {
                ETerm::Fst(ep) => spec_erases_to(*p, *ep),
                _ => false,
            },
            Term::Snd(p) => match e {
                ETerm::Snd(ep) => spec_erases_to(*p, *ep),
                _ => false,
            },
            Term::Constr(i, j) => e == ETerm::Constr(i, j),
            Term::Rec(i, _) => e == ETerm::Rec(i),
            _ => false,
        },
    }
}

pub fn clone_eenv(v: &EEnv) -> (r: EEnv)
    ensures
        r@ == v@,
{
    let mut r: EEnv = Vec::new();
    let mut i: usize = 0;
    while i < v.len()
        invariant
            i <= v@.len(),
            r@ == v@.subrange(0, i as int),
        decreases v@.len() - i,
    {
        r.push(v[i].clone());
        i = i + 1;
        assert(r@ =~= v@.subrange(0, i as int));
    }
    assert(v@.subrange(0, v@.len() as int) =~= v@);
    r
}

pub fn slice_eenv(v: &EEnv, lo: usize, hi: usize) -> (r: EEnv)
    requires
        lo <= hi <= v@.len(),
    ensures
        r@ == v@.subrange(lo as int, hi as int),
{
    let mut r: EEnv = Vec::new();
    let mut i: usize = lo;
    while i < hi
        invariant
            lo <= i <= hi,
            hi <= v@.len(),
            r@ == v@.subrange(lo as int, i as int),
        decreases hi - i,
    {
        r.push(v[i].clone());
        i = i + 1;
        assert(r@ =~= v@.subrange(lo as int, i as int));
    }
    r
}

/// Whether a type is an arity: a sort, or a Π-type whose codomain (under
/// a fresh variable) is an arity.
pub open spec fn spec_is_arity(fuel: nat, c: MCtx, ty: MValue) -> Option<bool>
    decreases fuel,
{
    if fuel == 0 {
        None
    } else {
        let f = (fuel - 1) as nat;
        match ty {
            MValue::Universe(_) | MValue::Prop => Some(true),
            MValue::Pi(a, clo) => match (spec_bind(c, *a), spec_clo_apply(f, clo, mvar(c.level))) {
                (Some(ext), Some(body)) => spec_is_arity(f, ext, body),
                _ => None,
            },
            _ => Some(false),
        }
    }
}

/// Whether a term is computationally irrelevant: its type is an arity (it
/// is a type or a type scheme) or a proposition (it is a proof).
pub open spec fn spec_is_erasable(fuel: nat, c: MCtx, t: Term) -> Result<bool, KernelError> {
    if fuel == 0 {
        Err(KernelError::Malformed)
    } else {
        let f = (fuel - 1) as nat;
        match spec_infer(f, c, t) {
            Err(e) => Err(e),
            Ok(ty) => match spec_is_arity(f, c, ty) {
                None => Err(KernelError::Malformed),
                Some(true) => Ok(true),
                Some(false) => spec_need(spec_is_prop(f, c, ty)),
            },
        }
    }
}

/// Law: in the erased world, applying a λ runs its body with the argument
/// bound last (β), applying a constructor adds the argument to its spine,
/// and `Box` absorbs any argument.
pub proof fn lemma_eapply_beta(fuel: nat, sig: Seq<Inductive>, c: EMClosure, arg: EMValue, i: usize, j: usize, sp: Seq<EMValue>)
    ensures
        spec_eapply(fuel + 2, sig, EMValue::Lam(c), arg) == spec_eeval(
            fuel,
            c.sig,
            c.env.push(arg),
            c.body,
        ),
        spec_eapply(fuel + 1, sig, EMValue::Constr(i, j, sp), arg) == Some(
            EMValue::Constr(i, j, sp.push(arg)),
        ),
        spec_eapply(fuel + 1, sig, EMValue::Box, arg) == Some(EMValue::Box),
{
}

/// Law: projecting a pair gives its component: with two more steps of
/// budget, `Fst(Pair(a, b))` evaluates to what `a` does and
/// `Snd(Pair(a, b))` to what `b` does.
pub proof fn lemma_eeval_projections(
    fuel: nat,
    sig: Seq<Inductive>,
    env: Seq<EMValue>,
    a: ETerm,
    b: ETerm,
    va: EMValue,
    vb: EMValue,
)
    requires
        spec_eeval(fuel, sig, env, a) == Some(va),
        spec_eeval(fuel, sig, env, b) == Some(vb),
    ensures
        spec_eeval(fuel + 2, sig, env, ETerm::Fst(Box::new(ETerm::Pair(Box::new(a), Box::new(b)))))
            == Some(va),
        spec_eeval(fuel + 2, sig, env, ETerm::Snd(Box::new(ETerm::Pair(Box::new(a), Box::new(b)))))
            == Some(vb),
{
    assert(spec_eeval(fuel + 1, sig, env, ETerm::Pair(Box::new(a), Box::new(b))) == Some(
        EMValue::Pair(Box::new(va), Box::new(vb)),
    ));
}

/// Law: the normal form of `Fst(Pair(a, b))` is the read-back of `a`'s
/// value, and that of `Snd(Pair(a, b))` the read-back of `b`'s.
pub proof fn lemma_enorm_projections(sig: Seq<Inductive>, a: ETerm, b: ETerm, va: EMValue, vb: EMValue)
    requires
        spec_eeval((FUEL - 2) as nat, sig, Seq::empty(), a) == Some(va),
        spec_eeval((FUEL - 2) as nat, sig, Seq::empty(), b) == Some(vb),
    ensures
        spec_eeval(FUEL as nat, sig, Seq::empty(), ETerm::Fst(Box::new(ETerm::Pair(Box::new(a), Box::new(b)))))
            == Some(va),
        spec_eeval(FUEL as nat, sig, Seq::empty(), ETerm::Snd(Box::new(ETerm::Pair(Box::new(a), Box::new(b)))))
            == Some(vb),
{
    lemma_eeval_projections((FUEL - 2) as nat, sig, Seq::empty(), a, b, va, vb);
}

/// Law: a term whose type is an arity (so the term is a type or a type
/// scheme) or a proposition (so the term is a proof) erases to `Box`.
pub proof fn lemma_erase_irrelevant(fuel: nat, c: MCtx, t: Term, ty: MValue)
    requires
        fuel > 1,
        spec_infer((fuel - 2) as nat, c, t) == Ok::<MValue, KernelError>(ty),
        spec_is_arity((fuel - 2) as nat, c, ty) == Some(true) || (spec_is_arity(
            (fuel - 2) as nat,
            c,
            ty,
        ) == Some(false) && spec_is_prop((fuel - 2) as nat, c, ty) == Some(true)),
    ensures
        spec_erase(fuel, c, t) == Ok::<ETerm, KernelError>(ETerm::Box),
{
}

/// Erasure with at most `fuel` nested steps: an irrelevant term becomes
/// `Box`, any other keeps its shape with its parts erased (binder types
/// and pair annotations dropped, the recursor's target sort forgotten).
pub open spec fn spec_erase(fuel: nat, c: MCtx, t: Term) -> Result<ETerm, KernelError>
    decreases fuel,
{
    if fuel == 0 {
        Err(KernelError::Malformed)
    } else {
        let f = (fuel - 1) as nat;
        match spec_is_erasable(f, c, t) {
            Err(e) => Err(e),
            Ok(true) => Ok(ETerm::Box),
            Ok(false) => match t {
                Term::Var(i) => Ok(ETerm::Var(i)),
                Term::Lam(a, b) => match spec_eval(f, c.sig, c.env, *a) {
                    None => Err(KernelError::Malformed),
                    Some(av) => match spec_bind(c, av) {
                        None => Err(KernelError::Malformed),
                        Some(ext) => match spec_erase(f, ext, *b) {
                            Err(e) => Err(e),
                            Ok(eb) => Ok(ETerm::Lam(Box::new(eb))),
                        },
                    },
                },
                Term::App(g, x) => match spec_erase(f, c, *g) {
                    Err(e) => Err(e),
                    Ok(eg) => match spec_erase(f, c, *x) {
                        Err(e) => Err(e),
                        Ok(ex) => Ok(ETerm::App(Box::new(eg), Box::new(ex))),
                    },
                },
                Term::Pair(_, a, b) => match spec_erase(f, c, *a) {
                    Err(e) => Err(e),
                    Ok(ea) => match spec_erase(f, c, *b) {
                        Err(e) => Err(e),
                        Ok(eb) => Ok(ETerm::Pair(Box::new(ea), Box::new(eb))),
                    },
                },
                Term::Fst(p) => match spec_erase(f, c, *p) {
                    Err(e) => Err(e),
                    Ok(ep) => Ok(ETerm::Fst(Box::new(ep))),
                },
                Term::Snd(p) => match spec_erase(f, c, *p) {
                    Err(e) => Err(e),
                    Ok(ep) => Ok(ETerm::Snd(Box::new(ep))),
                },
                Term::Constr(i, j) => Ok(ETerm::Constr(i, j)),
                Term::Rec(i, _) => Ok(ETerm::Rec(i)),
                _ => Err(KernelError::Malformed),
            },
        }
    }
}

/// Whether a type is an arity: a sort, or a Π-type whose codomain is an
/// arity.
fn is_arity(fuel: u64, ctx: &Context, ty: &Rc<crate::value::Value>) -> (r: Option<bool>)
    ensures
        fuel == 0 ==> r is None,
        fuel > 0 ==> match **ty {
            crate::value::Value::Universe(_) | crate::value::Value::Prop => r == Some(true),
            crate::value::Value::Pi(..) => true,
            _ => r == Some(false),
        },
        r == spec_is_arity(fuel as nat, mctx(*ctx), mval(**ty)),
    decreases fuel,
{
    proof {
        lemma_mctx(*ctx);
    }
    if fuel == 0 {
        return None;
    }
    match &**ty {
        crate::value::Value::Universe(_) | crate::value::Value::Prop => Some(true),
        crate::value::Value::Pi(a, clo) => {
            let extended = ctx.bind(a.clone())?;
            let body = clo.apply(fuel - 1, var(ctx.level))?;
            is_arity(fuel - 1, &extended, &body)
        },
        _ => Some(false),
    }
}

/// Whether a term is computationally irrelevant: a type (scheme) or a
/// proof.
fn is_erasable(fuel: u64, ctx: &Context, t: &Term) -> (r: Result<bool, KernelError>)
    ensures
        fuel == 0 ==> r is Err,
        r == spec_is_erasable(fuel as nat, mctx(*ctx), *t),
{
    if fuel == 0 {
        return Err(KernelError::Malformed);
    }
    let ty = infer_fuel(fuel - 1, ctx, t)?;
    if need(is_arity(fuel - 1, ctx, &ty))? {
        return Ok(true);
    }
    need(is_prop(fuel - 1, ctx, &ty))
}

fn erase_fuel(fuel: u64, ctx: &Context, t: &Term) -> (r: Result<ETerm, KernelError>)
    ensures
        r matches Ok(e) ==> spec_erases_to(*t, e),
        r == spec_erase(fuel as nat, mctx(*ctx), *t),
    decreases fuel,
{
    proof {
        lemma_mctx(*ctx);
    }
    if fuel == 0 {
        return Err(KernelError::Malformed);
    }
    if is_erasable(fuel - 1, ctx, t)? {
        return Ok(ETerm::Box);
    }
    match t {
        Term::Var(i) => Ok(ETerm::Var(*i)),
        Term::Lam(a, b) => {
            let av = need(eval_fuel(fuel - 1, &ctx.sig, &ctx.env, a))?;
            let extended = need(ctx.bind(av))?;
            let eb = erase_fuel(fuel - 1, &extended, b)?;
            Ok(ETerm::Lam(Box::new(eb)))
        },
        Term::App(f, x) => {
            let ef = erase_fuel(fuel - 1, ctx, f)?;
            let ex = erase_fuel(fuel - 1, ctx, x)?;
            Ok(ETerm::App(Box::new(ef), Box::new(ex)))
        },
        Term::Pair(_, a, b) => {
            let ea = erase_fuel(fuel - 1, ctx, a)?;
            let eb = erase_fuel(fuel - 1, ctx, b)?;
            Ok(ETerm::Pair(Box::new(ea), Box::new(eb)))
        },
        Term::Fst(p) => {
            let ep = erase_fuel(fuel - 1, ctx, p)?;
            Ok(ETerm::Fst(Box::new(ep)))
        },
        Term::Snd(p) => {
            let ep = erase_fuel(fuel - 1, ctx, p)?;
            Ok(ETerm::Snd(Box::new(ep)))
        },
        Term::Constr(i, j) => Ok(ETerm::Constr(*i, *j)),
        Term::Rec(i, _) => Ok(ETerm::Rec(*i)),
        _ => Err(KernelError::Malformed),
    }
}

/// Erases types and proofs from a well-typed term.
pub fn erase(ctx: &Context, t: &Term) -> (r: Result<ETerm, KernelError>)
    ensures
        r matches Ok(e) ==> spec_erases_to(*t, e),
        r == spec_erase(FUEL as nat, mctx(*ctx), *t),
{
    erase_fuel(FUEL, ctx, t)
}

fn evar(level: usize) -> (r: Rc<EValue>)
    ensures
        *r == EValue::Neutral(ENeutral::Var(level)),
        emval(*r) == emvar(level),
{
    assert(emneu(ENeutral::Var(level)) == EMNeutral::Var(level));
    Rc::new(EValue::Neutral(ENeutral::Var(level)))
}

impl EClosure {
    pub fn apply(&self, fuel: u64, arg: Rc<EValue>) -> (r: Option<Rc<EValue>>)
        ensures
            fuel == 0 ==> r is None,
            eomval(r) == spec_eclo_apply(fuel as nat, emclo(*self), emval(*arg)),
        decreases fuel, 0u64,
    {
        if fuel == 0 {
            return None;
        }
        let mut env = clone_eenv(&self.env);
        env.push(arg);
        proof {
            lemma_emvals_push(self.env@, arg);
        }
        eeval(fuel - 1, &self.sig, &env, &self.body)
    }
}

/// Application in the erased evaluator: applying `Box` gives `Box`.
pub fn eapply(fuel: u64, sig: &Rc<Sig>, f: Rc<EValue>, arg: Rc<EValue>) -> (r: Option<
    Rc<EValue>,
>)
    ensures
        fuel == 0 ==> r is None,
        fuel > 0 && *f == EValue::Box ==> (r matches Some(v) && *v == EValue::Box),
        fuel > 0 && *f is Pair ==> r is None,
        eomval(r) == spec_eapply(fuel as nat, sig@, emval(*f), emval(*arg)),
    decreases fuel, 1u64,
{
    if fuel == 0 {
        return None;
    }
    match &*f {
        EValue::Box => Some(Rc::new(EValue::Box)),
        EValue::Lam(clo) => clo.apply(fuel - 1, arg),
        EValue::Neutral(n) => {
            let n2 = n.clone();
            proof {
                assert(emneu(ENeutral::App(Rc::new(n2), arg)) == EMNeutral::App(
                    Box::new(emneu(n2)),
                    Box::new(emval(*arg)),
                ));
            }
            Some(Rc::new(EValue::Neutral(ENeutral::App(Rc::new(n2), arg))))
        },
        EValue::Constr(i, j, sp) => {
            let mut sp2 = clone_eenv(sp);
            sp2.push(arg);
            proof {
                lemma_emvals_push(sp@, arg);
            }
            Some(Rc::new(EValue::Constr(*i, *j, sp2)))
        },
        EValue::RecApp(i, sp) => {
            let mut sp2 = clone_eenv(sp);
            sp2.push(arg);
            proof {
                lemma_emvals_push(sp@, arg);
                lemma_emvals_index(sp@);
            }
            if *i >= sig.len() {
                return None;
            }
            match rec_arity(&sig[*i]) {
                Some(arity) => {
                    if sp2.len() == arity {
                        eiota(fuel - 1, sig, *i, sp2)
                    } else {
                        Some(Rc::new(EValue::RecApp(*i, sp2)))
                    }
                },
                None => None,
            }
        },
        EValue::Pair(..) => None,
    }
}

/// Evaluates an index expression of a constructor argument type in the
/// erased world: type formers become `Box`.
fn eindex(fuel: u64, sig: &Rc<Sig>, env: &EEnv, term: &Term) -> (r: Option<Rc<EValue>>)
    ensures
        fuel == 0 ==> r is None,
        eomval(r) == spec_eindex(fuel as nat, sig@, emvals(env@), *term),
    decreases fuel, 2u64,
{
    if fuel == 0 {
        return None;
    }
    proof {
        lemma_emvals_index(env@);
    }
    match term {
        Term::Var(i) => {
            if *i < env.len() {
                Some(env[env.len() - 1 - *i].clone())
            } else {
                None
            }
        },
        Term::Constr(i, j) => {
            let sp: Vec<Rc<EValue>> = Vec::new();
            assert(emvals(sp@) == Seq::<EMValue>::empty());
            Some(Rc::new(EValue::Constr(*i, *j, sp)))
        },
        Term::App(f, x) => {
            let fv = eindex(fuel - 1, sig, env, f)?;
            let xv = eindex(fuel - 1, sig, env, x)?;
            eapply(fuel - 1, sig, fv, xv)
        },
        Term::Ind(_) | Term::Universe(_) | Term::Prop | Term::Pi(..) | Term::Sigma(..) => Some(
            Rc::new(EValue::Box),
        ),
        _ => None,
    }
}

/// The recursor's computation rule in the erased world; a boxed major
/// premise (a proof of a subsingleton) selects the only constructor.
#[verifier::loop_isolation(false)]
#[verifier::rlimit(60)]
fn eiota(fuel: u64, sig: &Rc<Sig>, i: usize, sp: Vec<Rc<EValue>>) -> (r: Option<Rc<EValue>>)
    ensures
        fuel == 0 ==> r is None,
        eomval(r) == spec_eiota(fuel as nat, sig@, i, emvals(sp@)),
    decreases fuel, 0u64,
{
    if fuel == 0 || i >= sig.len() || sp.len() == 0 {
        return None;
    }
    let ghost g = (fuel - 1) as nat;
    let ghost msp = emvals(sp@);
    proof {
        lemma_emvals_index(sp@);
    }
    let ind = &sig[i];
    let np = ind.params.len();
    let k = ind.constructors.len();
    let major = sp[sp.len() - 1].clone();
    assert(emval(*major) == msp.last());
    match &*major {
        EValue::Constr(_, j, cargs) => {
            let j = *j;
            if j >= k || np >= sp.len() || j >= sp.len() - np - 1 {
                return None;
            }
            let ghost mc = emvals(cargs@);
            proof {
                lemma_emvals_index(cargs@);
            }
            let c = &ind.constructors[j];
            let method = sp[np + 1 + j].clone();
            let mask = first_order_rec_mask(sig, i, j);
            if cargs.len() < np {
                return None;
            }
            let ctor_args = slice_eenv(cargs, np, cargs.len());
            proof {
                lemma_emvals_subrange(cargs@, np as int, cargs@.len() as int);
                lemma_emvals_index(ctor_args@);
            }
            let ghost mca = emvals(ctor_args@);
            let ghost goal1 = spec_eapply_all(g, sig@, msp[np + 1 + j], mca, 0);
            let mut result = method;
            let mut a: usize = 0;
            while a < ctor_args.len()
                invariant
                    a <= ctor_args@.len(),
                    spec_eapply_all(g, sig@, emval(*result), mca, a as int) == goal1,
                decreases ctor_args@.len() - a,
            {
                result = match eapply(fuel - 1, sig, result, ctor_args[a].clone()) {
                    Some(v) => v,
                    None => return None,
                };
                a = a + 1;
            }
            let ghost goal2 = spec_eiota_ihs(g, sig@, i, msp, mc, j as int, 0, emrc(&result));
            let mut l: usize = 0;
            while l < ctor_args.len()
                invariant
                    l <= ctor_args@.len(),
                    mask@.len() == c.args@.len(),
                    spec_eiota_ihs(g, sig@, i, msp, mc, j as int, l as int, emval(*result))
                        == goal2,
                decreases ctor_args@.len() - l,
            {
                if l >= mask.len() {
                    return None;
                }
                if mask[l] {
                    if np + 1 > sp.len() || k > sp.len() - np - 1 {
                        return None;
                    }
                    let fixed = slice_eenv(&sp, 0, np + 1 + k);
                    if l > cargs.len() - np {
                        return None;
                    }
                    let arg_env = slice_eenv(cargs, 0, np + l);
                    proof {
                        lemma_emvals_subrange(sp@, 0, (np + 1 + k) as int);
                        lemma_emvals_subrange(cargs@, 0, (np + l) as int);
                    }
                    let idx_spine = spine_args(&c.args[l]);
                    let mut ih = Rc::new(EValue::RecApp(i, fixed));
                    if idx_spine.len() < np {
                        return None;
                    }
                    let ghost menv = emvals(arg_env@);
                    let ghost goal3 = spec_eih_indices(
                        g,
                        sig@,
                        menv,
                        idx_spine@,
                        np as int,
                        emrc(&ih),
                    );
                    let mut q: usize = np;
                    while q < idx_spine.len()
                        invariant
                            np <= q <= idx_spine@.len(),
                            spec_eih_indices(g, sig@, menv, idx_spine@, q as int, emval(*ih))
                                == goal3,
                        decreases idx_spine@.len() - q,
                    {
                        let iv = match eindex(fuel - 1, sig, &arg_env, &idx_spine[q]) {
                            Some(v) => v,
                            None => return None,
                        };
                        ih = match eapply(fuel - 1, sig, ih, iv) {
                            Some(v) => v,
                            None => return None,
                        };
                        q = q + 1;
                    }
                    ih = match eapply(fuel - 1, sig, ih, ctor_args[l].clone()) {
                        Some(v) => v,
                        None => return None,
                    };
                    result = match eapply(fuel - 1, sig, result, ih) {
                        Some(v) => v,
                        None => return None,
                    };
                }
                l = l + 1;
            }
            Some(result)
        },
        EValue::Neutral(n) => {
            let fixed = slice_eenv(&sp, 0, sp.len() - 1);
            let n2 = n.clone();
            proof {
                lemma_emvals_subrange(sp@, 0, sp@.len() - 1);
                assert(emneu(ENeutral::Rec(i, fixed, Rc::new(n2))) == EMNeutral::Rec(
                    i,
                    emvals(fixed@),
                    Box::new(emneu(n2)),
                ));
            }
            Some(Rc::new(EValue::Neutral(ENeutral::Rec(i, fixed, Rc::new(n2)))))
        },
        EValue::Box => {
            if k == 0 || np >= sp.len() - 1 {
                return None;
            }
            let c = &ind.constructors[0];
            let m = c.args.len();
            let ghost args = c.args@;
            let mask = first_order_rec_mask(sig, i, 0);
            let ghost total = (m + spec_nrec(i, args, m as int)) as nat;
            let ghost goal = spec_eapply_boxes(g, sig@, msp[np + 1], total);
            let mut result = sp[np + 1].clone();
            let mut a: usize = 0;
            while a < m
                invariant
                    a <= m,
                    spec_eapply_boxes(
                        g,
                        sig@,
                        emval(*result),
                        (m - a + spec_nrec(i, args, m as int)) as nat,
                    ) == goal,
                decreases m - a,
            {
                assert(emval(EValue::Box) == EMValue::Box);
                result = match eapply(fuel - 1, sig, result, Rc::new(EValue::Box)) {
                    Some(v) => v,
                    None => return None,
                };
                a = a + 1;
            }
            let mut l: usize = 0;
            while l < mask.len()
                invariant
                    l <= mask@.len(),
                    mask@.len() == m,
                    spec_nrec(i, args, l as int) <= spec_nrec(i, args, m as int),
                    spec_eapply_boxes(
                        g,
                        sig@,
                        emval(*result),
                        (spec_nrec(i, args, m as int) - spec_nrec(i, args, l as int)) as nat,
                    ) == goal,
                decreases mask@.len() - l,
            {
                proof {
                    lemma_nrec_mono(i, args, l + 1, m as int);
                }
                if mask[l] {
                    assert(emval(EValue::Box) == EMValue::Box);
                    result = match eapply(fuel - 1, sig, result, Rc::new(EValue::Box)) {
                        Some(v) => v,
                        None => return None,
                    };
                }
                l = l + 1;
            }
            Some(result)
        },
        _ => None,
    }
}

proof fn lemma_nrec_mono(i: usize, args: Seq<Term>, a: int, b: int)
    requires
        0 <= a <= b,
    ensures
        spec_nrec(i, args, a) <= spec_nrec(i, args, b),
    decreases b - a,
{
    if a < b {
        lemma_nrec_mono(i, args, a, b - 1);
    }
}

pub fn eproj1(p: Rc<EValue>) -> (r: Option<Rc<EValue>>)
    ensures
        eomval(r) == spec_eproj1(emval(*p)),
        match *p {
            EValue::Box => r matches Some(v) && *v == EValue::Box,
            EValue::Pair(a, _) => r == Some(a),
            EValue::Neutral(_) => r is Some,
            _ => r is None,
        },
{
    match &*p {
        EValue::Box => Some(Rc::new(EValue::Box)),
        EValue::Pair(a, _) => Some(a.clone()),
        EValue::Neutral(n) => {
            let n2 = n.clone();
            proof {
                assert(emneu(ENeutral::Fst(Rc::new(n2))) == EMNeutral::Fst(Box::new(emneu(n2))));
            }
            Some(Rc::new(EValue::Neutral(ENeutral::Fst(Rc::new(n2)))))
        },
        _ => None,
    }
}

pub fn eproj2(p: Rc<EValue>) -> (r: Option<Rc<EValue>>)
    ensures
        eomval(r) == spec_eproj2(emval(*p)),
        match *p {
            EValue::Box => r matches Some(v) && *v == EValue::Box,
            EValue::Pair(_, b) => r == Some(b),
            EValue::Neutral(_) => r is Some,
            _ => r is None,
        },
{
    match &*p {
        EValue::Box => Some(Rc::new(EValue::Box)),
        EValue::Pair(_, b) => Some(b.clone()),
        EValue::Neutral(n) => {
            let n2 = n.clone();
            proof {
                assert(emneu(ENeutral::Snd(Rc::new(n2))) == EMNeutral::Snd(Box::new(emneu(n2))));
            }
            Some(Rc::new(EValue::Neutral(ENeutral::Snd(Rc::new(n2)))))
        },
        _ => None,
    }
}

/// Evaluates an erased term.
pub fn eeval(fuel: u64, sig: &Rc<Sig>, env: &EEnv, term: &ETerm) -> (r: Option<Rc<EValue>>)
    ensures
        fuel == 0 ==> r is None,
        fuel > 0 ==> match *term {
            ETerm::Box => r matches Some(v) && *v == EValue::Box,
            ETerm::Var(i) => r == (if i < env@.len() {
                Some(env@[env@.len() - 1 - i])
            } else {
                None
            }),
            ETerm::Constr(i, j) => r matches Some(v) && *v == EValue::Constr(i, j, v->Constr_2)
                && (v->Constr_2)@.len() == 0,
            ETerm::Rec(i) => r matches Some(v) && *v == EValue::RecApp(i, v->RecApp_1) && (
            v->RecApp_1)@.len() == 0,
            _ => true,
        },
        eomval(r) == spec_eeval(fuel as nat, sig@, emvals(env@), *term),
    decreases fuel, 2u64,
{
    if fuel == 0 {
        return None;
    }
    proof {
        lemma_emvals_index(env@);
    }
    match term {
        ETerm::Box => Some(Rc::new(EValue::Box)),
        ETerm::Var(i) => {
            if *i < env.len() {
                Some(env[env.len() - 1 - *i].clone())
            } else {
                None
            }
        },
        ETerm::Lam(b) => {
            let clo = EClosure { env: clone_eenv(env), body: (**b).clone(), sig: sig.clone() };
            proof {
                assert(emclo(clo) == EMClosure { env: emvals(env@), body: **b, sig: sig@ });
            }
            Some(Rc::new(EValue::Lam(clo)))
        },
        ETerm::App(f, x) => {
            let fv = eeval(fuel - 1, sig, env, f)?;
            let xv = eeval(fuel - 1, sig, env, x)?;
            eapply(fuel - 1, sig, fv, xv)
        },
        ETerm::Pair(a, b) => {
            let av = eeval(fuel - 1, sig, env, a)?;
            let bv = eeval(fuel - 1, sig, env, b)?;
            Some(Rc::new(EValue::Pair(av, bv)))
        },
        ETerm::Fst(p) => {
            let pv = eeval(fuel - 1, sig, env, p)?;
            eproj1(pv)
        },
        ETerm::Snd(p) => {
            let pv = eeval(fuel - 1, sig, env, p)?;
            eproj2(pv)
        },
        ETerm::Constr(i, j) => {
            let sp: Vec<Rc<EValue>> = Vec::new();
            assert(emvals(sp@) == Seq::<EMValue>::empty());
            Some(Rc::new(EValue::Constr(*i, *j, sp)))
        },
        ETerm::Rec(i) => {
            let sp: Vec<Rc<EValue>> = Vec::new();
            assert(emvals(sp@) == Seq::<EMValue>::empty());
            Some(Rc::new(EValue::RecApp(*i, sp)))
        },
    }
}

/// Reads an erased value back into an erased term.
pub fn equote(fuel: u64, level: usize, value: &Rc<EValue>) -> (r: Option<ETerm>)
    ensures
        fuel == 0 ==> r is None,
        fuel > 0 ==> match **value {
            EValue::Box => r == Some(ETerm::Box),
            EValue::Constr(i, j, sp) => sp@.len() == 0 ==> r == Some(ETerm::Constr(i, j)),
            EValue::RecApp(i, sp) => sp@.len() == 0 ==> r == Some(ETerm::Rec(i)),
            _ => true,
        },
        r == spec_equote(fuel as nat, level, emval(**value)),
    decreases fuel,
{
    if fuel == 0 {
        return None;
    }
    match &**value {
        EValue::Box => Some(ETerm::Box),
        EValue::Neutral(n) => equote_neutral(fuel - 1, level, n),
        EValue::Lam(clo) => {
            if level == usize::MAX {
                return None;
            }
            let bv = clo.apply(fuel - 1, evar(level))?;
            let qb = equote(fuel - 1, level + 1, &bv)?;
            Some(ETerm::Lam(Box::new(qb)))
        },
        EValue::Pair(a, b) => {
            let qa = equote(fuel - 1, level, a)?;
            let qb = equote(fuel - 1, level, b)?;
            Some(ETerm::Pair(Box::new(qa), Box::new(qb)))
        },
        EValue::Constr(i, j, sp) => equote_spine(fuel - 1, level, ETerm::Constr(*i, *j), sp),
        EValue::RecApp(i, sp) => equote_spine(fuel - 1, level, ETerm::Rec(*i), sp),
    }
}

fn equote_spine(fuel: u64, level: usize, head: ETerm, spine: &Vec<Rc<EValue>>) -> (r: Option<
    ETerm,
>)
    ensures
        fuel == 0 && spine@.len() > 0 ==> r is None,
        spine@.len() == 0 ==> r == Some(head),
        r == spec_equote_spine(fuel as nat, level, head, emvals(spine@)),
    decreases fuel,
{
    proof {
        lemma_emvals_index(spine@);
    }
    if spine.len() == 0 {
        return Some(head);
    }
    if fuel == 0 {
        return None;
    }
    let ghost ms = emvals(spine@);
    let ghost goal = spec_equote_args((fuel - 1) as nat, level, head, ms, 0);
    let mut out = head;
    let mut i: usize = 0;
    while i < spine.len()
        invariant
            i <= spine@.len(),
            fuel > 0,
            spine@.len() == 0 ==> out == head,
            ms == emvals(spine@),
            ms.len() == spine@.len(),
            forall|k: int| 0 <= k < spine@.len() ==> #[trigger] ms[k] == emval(*spine@[k]),
            spec_equote_args((fuel - 1) as nat, level, out, ms, i as int) == goal,
            goal == spec_equote_spine(fuel as nat, level, head, ms),
        decreases spine@.len() - i,
    {
        let q = equote(fuel - 1, level, &spine[i])?;
        out = ETerm::App(Box::new(out), Box::new(q));
        i = i + 1;
    }
    Some(out)
}

fn equote_neutral(fuel: u64, level: usize, neutral: &ENeutral) -> (r: Option<ETerm>)
    ensures
        fuel == 0 ==> r is None,
        fuel > 0 ==> match *neutral {
            ENeutral::Var(l) => r == (if l < level {
                Some(ETerm::Var((level - 1 - l) as usize))
            } else {
                None
            }),
            _ => true,
        },
        r == spec_equote_neutral(fuel as nat, level, emneu(*neutral)),
    decreases fuel,
{
    if fuel == 0 {
        return None;
    }
    match neutral {
        ENeutral::Var(l) => {
            if *l < level {
                Some(ETerm::Var(level - 1 - *l))
            } else {
                None
            }
        },
        ENeutral::App(f, a) => {
            let qf = equote_neutral(fuel - 1, level, f)?;
            let qa = equote(fuel - 1, level, a)?;
            Some(ETerm::App(Box::new(qf), Box::new(qa)))
        },
        ENeutral::Fst(n) => {
            let q = equote_neutral(fuel - 1, level, n)?;
            Some(ETerm::Fst(Box::new(q)))
        },
        ENeutral::Snd(n) => {
            let q = equote_neutral(fuel - 1, level, n)?;
            Some(ETerm::Snd(Box::new(q)))
        },
        ENeutral::Rec(i, fixed, major) => {
            let head = equote_spine(fuel - 1, level, ETerm::Rec(*i), fixed)?;
            let qm = equote_neutral(fuel - 1, level, major)?;
            Some(ETerm::App(Box::new(head), Box::new(qm)))
        },
    }
}

/// The normal form of a closed erased term.
pub fn enorm(sig: &Rc<Sig>, term: &ETerm) -> (r: Option<ETerm>)
    ensures
        *term == ETerm::Box ==> r == Some(ETerm::Box),
        term is Constr ==> r == Some(*term),
        term is Rec ==> r == Some(*term),
        r == match spec_eeval(FUEL as nat, sig@, Seq::empty(), *term) {
            Some(v) => spec_equote(FUEL as nat, 0, v),
            None => None,
        },
{
    let env: EEnv = Vec::new();
    assert(emvals(env@) == Seq::<EMValue>::empty());
    let v = eeval(FUEL, sig, &env, term)?;
    equote(FUEL, 0, &v)
}

} // verus!
