use std::rc::Rc;
use vstd::prelude::*;

use crate::formers::{
    constr_type_term, ind_type_term, rec_type_term, spec_constr_type, spec_ind_type,
    spec_rec_sizes_ok, spec_rec_type,
};
use crate::term::{Inductive, Sig, Term};
use crate::value::{
    apply, clone_env, eval_fuel, lemma_mclo, lemma_mvals_index, lemma_mvals_push, mclo, mneu, mval, mvals,
    mvar, omval, proj1, quote_fuel, slice_env, spec_apply, spec_apply_all, spec_clo_apply,
    mrc, spec_eval, spec_proj1, spec_proj2, spec_quote, var, Closure, Env, MClosure, MNeutral,
    MValue, Neutral, Value, FUEL,
};

verus! {

/// Why the kernel rejected a term, a signature or an axiom.
#[derive(Debug, PartialEq, Clone)]
pub enum KernelError {
    UnboundVariable(usize),
    NotAFunction,
    PairNotSigma,
    FstOfNonPair,
    SndOfNonPair,
    UnknownInductive(usize),
    UnknownConstructor(usize, usize),
    LargeElimination,
    UnknownAxiom(usize),
    ExpectedType,
    /// The inferred type and the expected one, read back.
    TypeMismatch(Term, Term),
    IndexArityMismatch(usize, usize),
    /// The constructor, the argument's sort and the inductive's sort.
    ArgumentSortTooLarge(usize, usize, u32, u32),
    NotStrictlyPositive(usize, usize, usize),
    NestedRecursion(usize, usize, usize),
    ParamsNotApplied(usize, usize),
    NonUniformParam(usize, usize, usize),
    AxiomNotProp(usize),
    /// Evaluation met a value of the wrong shape, an index out of range,
    /// a level out of range, or exhausted its recursion budget.
    Malformed,
}

/// A typing context: the values of the bound variables (as neutral
/// variables), their types, their number, the signature and the axioms.
pub struct Context {
    pub(crate) env: Env,
    pub(crate) types: Vec<Rc<Value>>,
    pub(crate) level: usize,
    pub(crate) sig: Rc<Sig>,
    pub(crate) axioms: Rc<Vec<Term>>,
}

impl Context {
    pub closed spec fn spec_types(&self) -> Seq<Rc<Value>> {
        self.types@
    }

    pub closed spec fn spec_sig(&self) -> Sig {
        *self.sig
    }

    pub closed spec fn spec_axioms(&self) -> Seq<Term> {
        self.axioms@
    }

    pub closed spec fn spec_env(&self) -> Seq<Rc<Value>> {
        self.env@
    }

    pub closed spec fn spec_level(&self) -> usize {
        self.level
    }

    pub fn new() -> (r: Self)
        ensures
            mctx(r) == spec_empty_ctx(Seq::empty(), Seq::empty()),
            r.spec_types().len() == 0,
            r.spec_sig()@.len() == 0,
            r.spec_axioms().len() == 0,
    {
        Self::with_sig(Rc::new(Vec::new()))
    }

    pub fn with_sig(sig: Rc<Sig>) -> (r: Self)
        ensures
            mctx(r) == spec_empty_ctx(sig@, Seq::empty()),
            r.spec_types().len() == 0,
            r.spec_sig() == *sig,
            r.spec_axioms().len() == 0,
    {
        Self::with_sig_and_axioms(sig, Rc::new(Vec::new()))
    }

    pub fn with_sig_and_axioms(sig: Rc<Sig>, axioms: Rc<Vec<Term>>) -> (r: Self)
        ensures
            mctx(r) == spec_empty_ctx(sig@, axioms@),
            r.spec_types().len() == 0,
            r.spec_sig() == *sig,
            r.spec_axioms() == axioms@,
    {
        Self::fresh(sig, axioms)
    }

    /// The empty context over a signature and axioms.
    pub(crate) fn fresh(sig: Rc<Sig>, axioms: Rc<Vec<Term>>) -> (r: Self)
        ensures
            r.types@.len() == 0,
            r.level == 0,
            r.env@.len() == 0,
            r.sig == sig,
            r.axioms == axioms,
            mctx(r) == spec_empty_ctx(sig@, axioms@),
    {
        let c = Context { env: Vec::new(), types: Vec::new(), level: 0, sig, axioms };
        assert(mvals(c.env@) == Seq::<MValue>::empty());
        assert(mvals(c.types@) == Seq::<MValue>::empty());
        c
    }

    /// Extends the context with one variable of type `ty`.
    pub(crate) fn bind(&self, ty: Rc<Value>) -> (r: Option<Self>)
        ensures
            r matches Some(c) ==> c.types@ == self.types@.push(ty) && c.level == self.level + 1
                && c.sig == self.sig && c.axioms == self.axioms && c.env@.len() == self.env@.len()
                + 1,
            match r {
                Some(c) => spec_bind(mctx(*self), mval(*ty)) == Some(mctx(c)),
                None => spec_bind(mctx(*self), mval(*ty)) is None,
            },
    {
        if self.level == usize::MAX {
            return None;
        }
        let mut env = clone_env(&self.env);
        let v = var(self.level);
        env.push(v);
        let mut types = clone_env(&self.types);
        types.push(ty);
        proof {
            lemma_mvals_push(self.env@, v);
            lemma_mvals_push(self.types@, ty);
        }
        Some(
            Context {
                env,
                types,
                level: self.level + 1,
                sig: self.sig.clone(),
                axioms: self.axioms.clone(),
            },
        )
    }

    pub(crate) fn duplicate(&self) -> (r: Self)
        ensures
            r.types@ == self.types@,
            r.env@ == self.env@,
            r.level == self.level,
            r.sig == self.sig,
            r.axioms == self.axioms,
            mctx(r) == mctx(*self),
    {
        Context {
            env: clone_env(&self.env),
            types: clone_env(&self.types),
            level: self.level,
            sig: self.sig.clone(),
            axioms: self.axioms.clone(),
        }
    }
}

impl Default for Context {
    fn default() -> (r: Self)
        ensures
            r.spec_types().len() == 0,
            r.spec_sig()@.len() == 0,
            r.spec_axioms().len() == 0,
    {
        Self::new()
    }
}

/// What a context denotes: the values of the bound variables, their
/// types, their number, the signature and the axioms.
pub struct MCtx {
    pub env: Seq<MValue>,
    pub types: Seq<MValue>,
    pub level: usize,
    pub sig: Seq<Inductive>,
    pub axioms: Seq<Term>,
}

pub closed spec fn mctx(c: Context) -> MCtx {
    MCtx {
        env: mvals(c.env@),
        types: mvals(c.types@),
        level: c.level,
        sig: c.sig@,
        axioms: c.axioms@,
    }
}

/// What a context denotes, spelled out.
pub(crate) proof fn lemma_mctx(c: Context)
    ensures
        mctx(c) == (MCtx {
            env: mvals(c.env@),
            types: mvals(c.types@),
            level: c.level,
            sig: c.sig@,
            axioms: c.axioms@,
        }),
{
}

/// What a context denotes, spelled out over its accessors: the values of
/// its variables, their types, their number, the signature and the axioms.
pub proof fn lemma_mctx_fields(c: Context)
    ensures
        mctx(c) == (MCtx {
            env: mvals(c.spec_env()),
            types: mvals(c.spec_types()),
            level: c.spec_level(),
            sig: c.spec_sig()@,
            axioms: c.spec_axioms(),
        }),
{
}

/// The context extended with a variable of type `ty`, whose value is the
/// neutral variable of the next level; `None` when levels run out.
pub open spec fn spec_bind(c: MCtx, ty: MValue) -> Option<MCtx> {
    if c.level == usize::MAX {
        None
    } else {
        Some(
            MCtx {
                env: c.env.push(mvar(c.level)),
                types: c.types.push(ty),
                level: (c.level + 1) as usize,
                sig: c.sig,
                axioms: c.axioms,
            },
        )
    }
}

/// The empty context over a signature and axioms.
pub open spec fn spec_empty_ctx(sig: Seq<Inductive>, axioms: Seq<Term>) -> MCtx {
    MCtx { env: Seq::empty(), types: Seq::empty(), level: 0, sig, axioms }
}

pub open spec fn spec_level_of_sort(t: MValue) -> Option<u32> {
    match t {
        MValue::Prop => Some(0u32),
        MValue::Universe(n) => if n < u32::MAX {
            Some((n + 1) as u32)
        } else {
            None
        },
        _ => None,
    }
}

pub open spec fn spec_sort_value(level: u32) -> MValue {
    if level == 0 {
        MValue::Prop
    } else {
        MValue::Universe((level - 1) as u32)
    }
}

pub open spec fn spec_max_u32(a: u32, b: u32) -> u32 {
    if a >= b {
        a
    } else {
        b
    }
}

/// The type of a neutral value: a variable's declared type, a function
/// type's codomain at the argument, a Σ-type's components, a recursor's
/// motive at the indices and major premise, an axiom's statement.
pub open spec fn spec_type_of_neutral(fuel: nat, c: MCtx, n: MNeutral) -> Option<MValue>
    decreases fuel, 0int, 0int,
{
    if fuel == 0 {
        None
    } else {
        let f = (fuel - 1) as nat;
        match n {
            MNeutral::Var(l) => if l < c.types.len() {
                Some(c.types[l as int])
            } else {
                None
            },
            MNeutral::App(g, a) => match spec_type_of_neutral(f, c, *g) {
                Some(MValue::Pi(_, clo)) => spec_clo_apply(f, clo, *a),
                _ => None,
            },
            MNeutral::Fst(p) => match spec_type_of_neutral(f, c, *p) {
                Some(MValue::Sigma(fst_ty, _)) => Some(*fst_ty),
                _ => None,
            },
            MNeutral::Snd(p) => match spec_type_of_neutral(f, c, *p) {
                Some(MValue::Sigma(_, clo)) => match spec_proj1(MValue::Neutral(*p)) {
                    Some(p1) => spec_clo_apply(f, clo, p1),
                    None => None,
                },
                _ => None,
            },
            MNeutral::Rec(i, _, fixed, major) => if i >= c.sig.len() {
                None
            } else {
                let np = c.sig[i as int].params@.len();
                let k = c.sig[i as int].constructors@.len();
                if np >= fixed.len() || k > fixed.len() - np - 1 {
                    None
                } else {
                    match spec_apply_all(f, c.sig, fixed[np as int], fixed, (np + 1 + k) as int) {
                        Some(ty) => spec_apply(f, c.sig, ty, MValue::Neutral(*major)),
                        None => None,
                    }
                }
            },
            MNeutral::Axiom(i) => if i < c.axioms.len() {
                spec_eval(f, c.sig, Seq::empty(), c.axioms[i as int])
            } else {
                None
            },
        }
    }
}

/// The level of the sort a type lives in (0: a proposition); a Π-type
/// into a proposition is a proposition.
pub open spec fn spec_sort_level(fuel: nat, c: MCtx, ty: MValue) -> Option<u32>
    decreases fuel, 0int, 0int,
{
    if fuel == 0 {
        None
    } else {
        let f = (fuel - 1) as nat;
        match ty {
            MValue::Prop => Some(1u32),
            MValue::Universe(n) => if n <= u32::MAX - 2 {
                Some((n + 2) as u32)
            } else {
                None
            },
            MValue::Pi(a, clo) => match (
                spec_sort_level(f, c, *a),
                spec_bind(c, *a),
                spec_clo_apply(f, clo, mvar(c.level)),
            ) {
                (Some(dom), Some(ext), Some(body)) => match spec_sort_level(f, ext, body) {
                    Some(cod) => Some(
                        if cod == 0 {
                            0u32
                        } else {
                            spec_max_u32(dom, cod)
                        },
                    ),
                    None => None,
                },
                _ => None,
            },
            MValue::Sigma(a, clo) => match (
                spec_sort_level(f, c, *a),
                spec_bind(c, *a),
                spec_clo_apply(f, clo, mvar(c.level)),
            ) {
                (Some(dom), Some(ext), Some(body)) => match spec_sort_level(f, ext, body) {
                    Some(cod) => Some(spec_max_u32(dom, cod)),
                    None => None,
                },
                _ => None,
            },
            MValue::Neutral(n) => match spec_type_of_neutral(f, c, n) {
                Some(t) => spec_level_of_sort(t),
                None => None,
            },
            MValue::Ind(i, _) => if i < c.sig.len() {
                Some(c.sig[i as int].sort)
            } else {
                None
            },
            _ => None,
        }
    }
}

pub open spec fn spec_is_prop(fuel: nat, c: MCtx, ty: MValue) -> Option<bool>
    decreases fuel, 1int, 0int,
{
    if fuel == 0 {
        None
    } else {
        match spec_sort_level((fuel - 1) as nat, c, ty) {
            Some(l) => Some(l == 0),
            None => None,
        }
    }
}

/// Type-directed conversion: any two proofs of a proposition are equal;
/// functions are compared on a fresh variable, pairs componentwise; other
/// values structurally. `None`: evaluation failed or fuel ran out.
pub open spec fn spec_conv(fuel: nat, c: MCtx, ty: MValue, x: MValue, y: MValue) -> Option<bool>
    decreases fuel, 2int, 0int,
{
    if fuel == 0 {
        None
    } else {
        let f = (fuel - 1) as nat;
        match spec_is_prop(f, c, ty) {
            None => None,
            Some(true) => Some(true),
            Some(false) => match ty {
                MValue::Pi(a, clo) => {
                    let v = mvar(c.level);
                    match (
                        spec_bind(c, *a),
                        spec_clo_apply(f, clo, v),
                        spec_apply(f, c.sig, x, v),
                        spec_apply(f, c.sig, y, v),
                    ) {
                        (Some(ext), Some(cod), Some(xa), Some(ya)) => spec_conv(f, ext, cod, xa, ya),
                        _ => None,
                    }
                },
                MValue::Sigma(a, clo) => match (spec_proj1(x), spec_proj1(y)) {
                    (Some(x1), Some(y1)) => match spec_conv(f, c, *a, x1, y1) {
                        None => None,
                        Some(false) => Some(false),
                        Some(true) => match (spec_clo_apply(f, clo, x1), spec_proj2(x), spec_proj2(y)) {
                            (Some(snd_ty), Some(x2), Some(y2)) => spec_conv(f, c, snd_ty, x2, y2),
                            _ => None,
                        },
                    },
                    _ => None,
                },
                _ => spec_conv_nf(f, c, x, y),
            },
        }
    }
}

/// Law: `Prop` has type `Type 0`, `Type n` has type `Type (n+1)`, and a
/// variable has the type its context gives it (the innermost binding last);
/// a variable out of range is unbound.
pub proof fn lemma_infer_atoms(fuel: nat, c: MCtx, n: u32, v: usize)
    requires
        fuel > 0,
    ensures
        spec_infer(fuel, c, Term::Prop) == Ok::<MValue, KernelError>(MValue::Universe(0)),
        n < u32::MAX ==> spec_infer(fuel, c, Term::Universe(n)) == Ok::<MValue, KernelError>(
            MValue::Universe((n + 1) as u32),
        ),
        v < c.types.len() ==> spec_infer(fuel, c, Term::Var(v)) == Ok::<MValue, KernelError>(
            c.types[c.types.len() - 1 - v],
        ),
        v >= c.types.len() ==> spec_infer(fuel, c, Term::Var(v)) == Err::<MValue, KernelError>(
            KernelError::UnboundVariable(v),
        ),
{
}

/// Law: an application's type is the function type's codomain at the
/// argument, when the function has a Π-type and the argument checks
/// against its domain; a function without a Π-type is refused.
pub proof fn lemma_infer_app(fuel: nat, c: MCtx, g: Term, x: Term)
    requires
        fuel > 0,
    ensures
        ({
            let f = (fuel - 1) as nat;
            let t = spec_infer(fuel, c, Term::App(Box::new(g), Box::new(x)));
            &&& spec_infer(f, c, g) matches Err(e) ==> t == Err::<MValue, KernelError>(e)
            &&& (spec_infer(f, c, g) matches Ok(ty) && !(ty is Pi)) ==> t == Err::<MValue, KernelError>(
                KernelError::NotAFunction,
            )
        }),
{
}

/// Law: when the function has type `Π (y : a). B` and the argument `x`
/// checks against `a`, the application has type `B` at `x`'s value.
pub proof fn lemma_infer_app_pi(
    fuel: nat,
    c: MCtx,
    g: Term,
    x: Term,
    a: MValue,
    clo: MClosure,
    xv: MValue,
    r: MValue,
)
    requires
        fuel > 0,
        spec_infer((fuel - 1) as nat, c, g) == Ok::<MValue, KernelError>(
            MValue::Pi(Box::new(a), clo),
        ),
        spec_check((fuel - 1) as nat, c, x, a) is Ok,
        spec_eval((fuel - 1) as nat, c.sig, c.env, x) == Some(xv),
        spec_clo_apply((fuel - 1) as nat, clo, xv) == Some(r),
    ensures
        spec_infer(fuel, c, Term::App(Box::new(g), Box::new(x))) == Ok::<MValue, KernelError>(r),
{
}

/// Law: the type of a Π-type or a Σ-type whose domain has sort level `la`
/// and whose codomain (under the domain) has sort level `lb`. A Σ-type
/// lives at the larger of the two levels; so does a Π-type, except that a
/// Π-type into a proposition is a proposition. In particular a Σ-type whose
/// first component is not a proof (`la > 0`) is never a proposition.
pub proof fn lemma_binder_sorts(
    fuel: nat,
    c: MCtx,
    a: Term,
    b: Term,
    av: MValue,
    ext: MCtx,
    la: u32,
    lb: u32,
)
    requires
        fuel > 0,
        spec_infer_sort((fuel - 1) as nat, c, a) == Ok::<u32, KernelError>(la),
        spec_eval((fuel - 1) as nat, c.sig, c.env, a) == Some(av),
        spec_bind(c, av) == Some(ext),
        spec_infer_sort((fuel - 1) as nat, ext, b) == Ok::<u32, KernelError>(lb),
    ensures
        spec_infer(fuel, c, Term::Sigma(Box::new(a), Box::new(b))) == Ok::<MValue, KernelError>(
            if la == 0 && lb == 0 {
                MValue::Prop
            } else if la >= lb {
                MValue::Universe((la - 1) as u32)
            } else {
                MValue::Universe((lb - 1) as u32)
            },
        ),
        la > 0 ==> spec_infer(fuel, c, Term::Sigma(Box::new(a), Box::new(b))) != Ok::<
            MValue,
            KernelError,
        >(MValue::Prop),
        spec_infer(fuel, c, Term::Pi(Box::new(a), Box::new(b))) == Ok::<MValue, KernelError>(
            if lb == 0 {
                MValue::Prop
            } else if la >= lb {
                MValue::Universe((la - 1) as u32)
            } else {
                MValue::Universe((lb - 1) as u32)
            },
        ),
{
}

/// Law: sorts convert exactly when they are the same sort: two universes
/// when their levels are equal, `Prop` with itself, and never a universe
/// with `Prop`; type formers and constructors of different inductives
/// never convert.
pub proof fn lemma_conv_sorts(fuel: nat, c: MCtx, a: u32, b: u32, i1: usize, i2: usize, j1: usize, j2: usize, s1: Seq<MValue>, s2: Seq<MValue>)
    requires
        fuel > 0,
    ensures
        spec_conv_nf(fuel, c, MValue::Universe(a), MValue::Universe(b)) == Some(a == b),
        spec_conv_nf(fuel, c, MValue::Prop, MValue::Prop) == Some(true),
        spec_conv_nf(fuel, c, MValue::Prop, MValue::Universe(a)) == Some(false),
        spec_conv_nf(fuel, c, MValue::Universe(a), MValue::Prop) == Some(false),
        i1 != i2 ==> spec_conv_nf(fuel, c, MValue::Ind(i1, s1), MValue::Ind(i2, s2)) == Some(false),
        (i1 != i2 || j1 != j2) ==> spec_conv_nf(
            fuel,
            c,
            MValue::Constr(i1, j1, s1),
            MValue::Constr(i2, j2, s2),
        ) == Some(false),
{
}

/// Proof irrelevance: at a type that is a proposition, any two values are
/// convertible.
pub proof fn lemma_proof_irrelevance(fuel: nat, c: MCtx, ty: MValue, x: MValue, y: MValue)
    requires
        fuel > 0,
        spec_is_prop((fuel - 1) as nat, c, ty) == Some(true),
    ensures
        spec_conv(fuel, c, ty, x, y) == Some(true),
{
}

/// Structural conversion of values, with η for functions.
pub open spec fn spec_conv_nf(fuel: nat, c: MCtx, x: MValue, y: MValue) -> Option<bool>
    decreases fuel, 2int, 0int,
{
    if fuel == 0 {
        None
    } else {
        let f = (fuel - 1) as nat;
        let v = mvar(c.level);
        match (x, y) {
            (MValue::Universe(a), MValue::Universe(b)) => Some(a == b),
            (MValue::Prop, MValue::Prop) => Some(true),
            (MValue::Pi(a1, c1), MValue::Pi(a2, c2)) => match spec_conv_nf(f, c, *a1, *a2) {
                None => None,
                Some(false) => Some(false),
                Some(true) => match (
                    spec_bind(c, *a1),
                    spec_clo_apply(f, c1, v),
                    spec_clo_apply(f, c2, v),
                ) {
                    (Some(ext), Some(b1), Some(b2)) => spec_conv_nf(f, ext, b1, b2),
                    _ => None,
                },
            },
            (MValue::Sigma(a1, c1), MValue::Sigma(a2, c2)) => match spec_conv_nf(f, c, *a1, *a2) {
                None => None,
                Some(false) => Some(false),
                Some(true) => match (
                    spec_bind(c, *a1),
                    spec_clo_apply(f, c1, v),
                    spec_clo_apply(f, c2, v),
                ) {
                    (Some(ext), Some(b1), Some(b2)) => spec_conv_nf(f, ext, b1, b2),
                    _ => None,
                },
            },
            (MValue::Neutral(n1), MValue::Neutral(n2)) => match spec_conv_neutral(f, c, n1, n2) {
                Some(t) => Some(t is Some),
                None => None,
            },
            (MValue::Ind(i1, s1), MValue::Ind(i2, s2)) => if i1 != i2 {
                Some(false)
            } else {
                spec_conv_spine(f, c, s1, s2)
            },
            (MValue::Constr(i1, j1, s1), MValue::Constr(i2, j2, s2)) => if i1 != i2 || j1 != j2 {
                Some(false)
            } else {
                spec_conv_spine(f, c, s1, s2)
            },
            (MValue::RecApp(i1, t1, s1), MValue::RecApp(i2, t2, s2)) => if i1 != i2 || t1 != t2 {
                Some(false)
            } else {
                spec_conv_spine(f, c, s1, s2)
            },
            (MValue::Lam(a1, c1), MValue::Lam(_, c2)) => match (
                spec_bind(c, *a1),
                spec_clo_apply(f, c1, v),
                spec_clo_apply(f, c2, v),
            ) {
                (Some(ext), Some(b1), Some(b2)) => spec_conv_nf(f, ext, b1, b2),
                _ => None,
            },
            (MValue::Lam(a1, c1), MValue::Neutral(_)) => match (
                spec_bind(c, *a1),
                spec_clo_apply(f, c1, v),
                spec_apply(f, c.sig, y, v),
            ) {
                (Some(ext), Some(b1), Some(b2)) => spec_conv_nf(f, ext, b1, b2),
                _ => None,
            },
            (MValue::Neutral(_), MValue::Lam(a2, c2)) => match (
                spec_bind(c, *a2),
                spec_apply(f, c.sig, x, v),
                spec_clo_apply(f, c2, v),
            ) {
                (Some(ext), Some(b1), Some(b2)) => spec_conv_nf(f, ext, b1, b2),
                _ => None,
            },
            (MValue::Pair(_, a1, b1), MValue::Pair(_, a2, b2)) => match spec_conv_nf(f, c, *a1, *a2) {
                None => None,
                Some(false) => Some(false),
                Some(true) => spec_conv_nf(f, c, *b1, *b2),
            },
            _ => Some(false),
        }
    }
}

/// Pointwise conversion of two spines; spines of different lengths differ.
pub open spec fn spec_conv_spine(fuel: nat, c: MCtx, xs: Seq<MValue>, ys: Seq<MValue>) -> Option<
    bool,
>
    decreases fuel, 1int, 0int,
{
    if fuel == 0 {
        None
    } else if xs.len() != ys.len() {
        Some(false)
    } else {
        spec_conv_spine_from((fuel - 1) as nat, c, xs, ys, 0)
    }
}

pub open spec fn spec_conv_spine_from(
    fuel: nat,
    c: MCtx,
    xs: Seq<MValue>,
    ys: Seq<MValue>,
    i: int,
) -> Option<bool>
    decreases fuel, 3int, xs.len() - i,
{
    if i < 0 || i >= xs.len() {
        Some(true)
    } else {
        match spec_conv_nf(fuel, c, xs[i], ys[i]) {
            None => None,
            Some(false) => Some(false),
            Some(true) => spec_conv_spine_from(fuel, c, xs, ys, i + 1),
        }
    }
}

/// Conversion of neutral values: on success, their common type; the outer
/// `None` is a failure of evaluation.
pub open spec fn spec_conv_neutral(fuel: nat, c: MCtx, x: MNeutral, y: MNeutral) -> Option<
    Option<MValue>,
>
    decreases fuel, 2int, 0int,
{
    if fuel == 0 {
        None
    } else {
        let f = (fuel - 1) as nat;
        match (x, y) {
            (MNeutral::Var(i), MNeutral::Var(j)) => if i == j {
                if i < c.types.len() {
                    Some(Some(c.types[i as int]))
                } else {
                    None
                }
            } else {
                Some(None)
            },
            (MNeutral::App(f1, a1), MNeutral::App(f2, a2)) => match spec_conv_neutral(f, c, *f1, *f2) {
                None => None,
                Some(None) => Some(None),
                Some(Some(t)) => match t {
                    MValue::Pi(dom, clo) => match spec_conv(f, c, *dom, *a1, *a2) {
                        None => None,
                        Some(true) => match spec_clo_apply(f, clo, *a1) {
                            Some(r) => Some(Some(r)),
                            None => None,
                        },
                        Some(false) => Some(None),
                    },
                    _ => Some(None),
                },
            },
            (MNeutral::Fst(p1), MNeutral::Fst(p2)) => match spec_conv_neutral(f, c, *p1, *p2) {
                None => None,
                Some(None) => Some(None),
                Some(Some(t)) => match t {
                    MValue::Sigma(fst_ty, _) => Some(Some(*fst_ty)),
                    _ => Some(None),
                },
            },
            (MNeutral::Snd(p1), MNeutral::Snd(p2)) => match spec_conv_neutral(f, c, *p1, *p2) {
                None => None,
                Some(None) => Some(None),
                Some(Some(t)) => match t {
                    MValue::Sigma(_, clo) => match spec_proj1(MValue::Neutral(*p1)) {
                        Some(p) => match spec_clo_apply(f, clo, p) {
                            Some(r) => Some(Some(r)),
                            None => None,
                        },
                        None => None,
                    },
                    _ => Some(None),
                },
            },
            (MNeutral::Rec(i1, t1, f1, m1), MNeutral::Rec(i2, t2, f2, m2)) => if i1 != i2 || t1
                != t2 {
                Some(None)
            } else {
                match spec_conv_spine(f, c, f1, f2) {
                    None => None,
                    Some(false) => Some(None),
                    Some(true) => match spec_conv_neutral(f, c, *m1, *m2) {
                        None => None,
                        Some(None) => Some(None),
                        Some(Some(_)) => match spec_type_of_neutral(f, c, x) {
                            Some(ty) => Some(Some(ty)),
                            None => None,
                        },
                    },
                }
            },
            (MNeutral::Axiom(i), MNeutral::Axiom(j)) => if i == j {
                match spec_type_of_neutral(f, c, x) {
                    Some(ty) => Some(Some(ty)),
                    None => None,
                }
            } else {
                Some(None)
            },
            _ => Some(None),
        }
    }
}

/// What an optional optional value denotes.
pub open spec fn oomval(o: Option<Option<Rc<Value>>>) -> Option<Option<MValue>> {
    match o {
        Some(Some(v)) => Some(Some(mval(*v))),
        Some(None) => Some(None),
        None => None,
    }
}

/// What an inferred type denotes.
pub open spec fn rmval(r: Result<Rc<Value>, KernelError>) -> Result<MValue, KernelError> {
    match r {
        Ok(v) => Ok(mval(*v)),
        Err(e) => Err(e),
    }
}

/// `Malformed` for a failed evaluation.
pub open spec fn spec_need<T>(o: Option<T>) -> Result<T, KernelError> {
    match o {
        Some(v) => Ok(v),
        None => Err(KernelError::Malformed),
    }
}

/// The type the recursor-type builder gives, as the kernel calls it.
pub open spec fn spec_rec_type_built(sig: Seq<Inductive>, i: usize, t: u32) -> Option<Term> {
    if spec_rec_sizes_ok(sig, i) {
        spec_rec_type(sig, i, t)
    } else {
        None
    }
}

/// The type the constructor-type builder gives.
pub open spec fn spec_constr_type_built(sig: Seq<Inductive>, i: usize, j: usize) -> Option<Term> {
    if sig[i as int].params@.len() + sig[i as int].constructors@[j as int].args@.len()
        <= usize::MAX {
        Some(spec_constr_type(i, sig[i as int], j as int))
    } else {
        None
    }
}

/// Type inference with at most `fuel` nested steps: the rules of the
/// calculus of inductive constructions with Σ-types, universes and a
/// proof-irrelevant `Prop`; the error says which rule failed, `Malformed`
/// that evaluation failed or fuel ran out.
pub open spec fn spec_infer(fuel: nat, c: MCtx, t: Term) -> Result<MValue, KernelError>
    decreases fuel, 3int, 0int,
{
    if fuel == 0 {
        Err(KernelError::Malformed)
    } else {
        let f = (fuel - 1) as nat;
        match t {
            Term::Var(i) => if i < c.types.len() {
                Ok(c.types[c.types.len() - 1 - i])
            } else {
                Err(KernelError::UnboundVariable(i))
            },
            Term::Universe(n) => if n < u32::MAX {
                Ok(MValue::Universe((n + 1) as u32))
            } else {
                Err(KernelError::Malformed)
            },
            Term::Prop => Ok(MValue::Universe(0)),
            Term::Pi(a, b) => match spec_infer_sort(f, c, *a) {
                Err(e) => Err(e),
                Ok(dom) => match spec_eval(f, c.sig, c.env, *a) {
                    None => Err(KernelError::Malformed),
                    Some(av) => match spec_bind(c, av) {
                        None => Err(KernelError::Malformed),
                        Some(ext) => match spec_infer_sort(f, ext, *b) {
                            Err(e) => Err(e),
                            Ok(cod) => Ok(
                                spec_sort_value(
                                    if cod == 0 {
                                        0u32
                                    } else {
                                        spec_max_u32(dom, cod)
                                    },
                                ),
                            ),
                        },
                    },
                },
            },
            Term::Lam(a, body) => match spec_infer_sort(f, c, *a) {
                Err(e) => Err(e),
                Ok(_) => match spec_eval(f, c.sig, c.env, *a) {
                    None => Err(KernelError::Malformed),
                    Some(av) => spec_lam_type(f, c, av, *body),
                },
            },
            Term::App(g, x) => match spec_infer(f, c, *g) {
                Err(e) => Err(e),
                Ok(MValue::Pi(a, clo)) => match spec_check(f, c, *x, *a) {
                    Err(e) => Err(e),
                    Ok(_) => match spec_eval(f, c.sig, c.env, *x) {
                        None => Err(KernelError::Malformed),
                        Some(xv) => spec_need(spec_clo_apply(f, clo, xv)),
                    },
                },
                Ok(_) => Err(KernelError::NotAFunction),
            },
            Term::Sigma(a, b) => match spec_infer_sort(f, c, *a) {
                Err(e) => Err(e),
                Ok(dom) => match spec_eval(f, c.sig, c.env, *a) {
                    None => Err(KernelError::Malformed),
                    Some(av) => match spec_bind(c, av) {
                        None => Err(KernelError::Malformed),
                        Some(ext) => match spec_infer_sort(f, ext, *b) {
                            Err(e) => Err(e),
                            Ok(cod) => Ok(spec_sort_value(spec_max_u32(dom, cod))),
                        },
                    },
                },
            },
            Term::Pair(x, a, b) => match spec_infer_sort(f, c, *x) {
                Err(e) => Err(e),
                Ok(_) => match spec_eval(f, c.sig, c.env, *x) {
                    None => Err(KernelError::Malformed),
                    Some(MValue::Sigma(fst_ty, clo)) => match spec_check(f, c, *a, *fst_ty) {
                        Err(e) => Err(e),
                        Ok(_) => match spec_eval(f, c.sig, c.env, *a) {
                            None => Err(KernelError::Malformed),
                            Some(av) => match spec_clo_apply(f, clo, av) {
                                None => Err(KernelError::Malformed),
                                Some(snd_ty) => match spec_check(f, c, *b, snd_ty) {
                                    Err(e) => Err(e),
                                    Ok(_) => Ok(MValue::Sigma(fst_ty, clo)),
                                },
                            },
                        },
                    },
                    Some(_) => Err(KernelError::PairNotSigma),
                },
            },
            Term::Fst(p) => match spec_infer(f, c, *p) {
                Err(e) => Err(e),
                Ok(MValue::Sigma(fst_ty, _)) => Ok(*fst_ty),
                Ok(_) => Err(KernelError::FstOfNonPair),
            },
            Term::Snd(p) => match spec_infer(f, c, *p) {
                Err(e) => Err(e),
                Ok(MValue::Sigma(_, clo)) => match spec_eval(f, c.sig, c.env, *p) {
                    None => Err(KernelError::Malformed),
                    Some(pv) => match spec_proj1(pv) {
                        None => Err(KernelError::Malformed),
                        Some(p1) => spec_need(spec_clo_apply(f, clo, p1)),
                    },
                },
                Ok(_) => Err(KernelError::SndOfNonPair),
            },
            Term::Ind(i) => if i >= c.sig.len() {
                Err(KernelError::UnknownInductive(i))
            } else {
                spec_need(spec_eval(f, c.sig, Seq::empty(), spec_ind_type(c.sig[i as int])))
            },
            Term::Constr(i, j) => if i >= c.sig.len() || j >= c.sig[i as int].constructors@.len() {
                Err(KernelError::UnknownConstructor(i, j))
            } else {
                match spec_constr_type_built(c.sig, i, j) {
                    None => Err(KernelError::Malformed),
                    Some(ty) => spec_need(spec_eval(f, c.sig, Seq::empty(), ty)),
                }
            },
            Term::Rec(i, s) => if i >= c.sig.len() {
                Err(KernelError::UnknownInductive(i))
            } else if c.sig[i as int].sort == 0 && s != 0 && !spec_is_subsingleton(f, c.sig, i) {
                Err(KernelError::LargeElimination)
            } else {
                match spec_rec_type_built(c.sig, i, s) {
                    None => Err(KernelError::Malformed),
                    Some(ty) => spec_need(spec_eval(f, c.sig, Seq::empty(), ty)),
                }
            },
            Term::Axiom(i) => if i >= c.axioms.len() {
                Err(KernelError::UnknownAxiom(i))
            } else {
                spec_need(spec_eval(f, c.sig, Seq::empty(), c.axioms[i as int]))
            },
        }
    }
}

/// The type of a λ with domain `av` and body `body`: the body's type, read
/// back under the binder, as the codomain of a Π-type.
pub open spec fn spec_lam_type(fuel: nat, c: MCtx, av: MValue, body: Term) -> Result<
    MValue,
    KernelError,
>
    decreases fuel, 5int, 0int,
{
    match spec_bind(c, av) {
        None => Err(KernelError::Malformed),
        Some(ext) => match spec_infer(fuel, ext, body) {
            Err(e) => Err(e),
            Ok(bt) => spec_pi_of(fuel, c, av, ext.level, bt),
        },
    }
}

/// The Π-type with domain `av` whose codomain is `bt` read back at
/// `level`, closed over the context's environment.
#[verifier::opaque]
pub open spec fn spec_pi_of(fuel: nat, c: MCtx, av: MValue, level: usize, bt: MValue) -> Result<
    MValue,
    KernelError,
> {
    match spec_quote(fuel, level, bt) {
        None => Err(KernelError::Malformed),
        Some(cod) => Ok(MValue::Pi(Box::new(av), MClosure { env: c.env, body: cod, sig: c.sig })),
    }
}

/// The level of the sort a term's type is; `ExpectedType` if its type is
/// not a sort.
pub open spec fn spec_infer_sort(fuel: nat, c: MCtx, t: Term) -> Result<u32, KernelError>
    decreases fuel, 4int, 0int,
{
    if fuel == 0 {
        Err(KernelError::Malformed)
    } else {
        match spec_infer((fuel - 1) as nat, c, t) {
            Err(e) => Err(e),
            Ok(ty) => match ty {
                MValue::Prop | MValue::Universe(_) => spec_need(spec_level_of_sort(ty)),
                _ => Err(KernelError::ExpectedType),
            },
        }
    }
}

/// Checking against an expected type: the inferred type must convert to
/// it.
pub open spec fn spec_check(fuel: nat, c: MCtx, t: Term, expected: MValue) -> Result<
    (),
    KernelError,
>
    decreases fuel, 4int, 0int,
{
    if fuel == 0 {
        Err(KernelError::Malformed)
    } else {
        let f = (fuel - 1) as nat;
        match spec_infer(f, c, t) {
            Err(e) => Err(e),
            Ok(inferred) => match spec_conv_nf(f, c, inferred, expected) {
                None => Err(KernelError::Malformed),
                Some(true) => Ok(()),
                Some(false) => match (
                    spec_quote(f, c.level, inferred),
                    spec_quote(f, c.level, expected),
                ) {
                    (Some(a), Some(b)) => Err(KernelError::TypeMismatch(a, b)),
                    _ => Err(KernelError::Malformed),
                },
            },
        }
    }
}

/// Binding the parameters `params[p..]` in turn, each of which must be a
/// type; `None` where one is not.
pub open spec fn spec_sub_params(fuel: nat, c: MCtx, params: Seq<Term>, p: int) -> Option<MCtx>
    decreases fuel, 5int, params.len() - p,
{
    if p < 0 || p >= params.len() {
        Some(c)
    } else if spec_infer_sort(fuel, c, params[p]) is Err {
        None
    } else {
        match spec_eval(fuel, c.sig, c.env, params[p]) {
            None => None,
            Some(pv) => match spec_bind(c, pv) {
                None => None,
                Some(ext) => spec_sub_params(fuel, ext, params, p + 1),
            },
        }
    }
}

/// Whether the arguments `args[a..]` are all proofs (in turn, each in the
/// context of the earlier ones).
pub open spec fn spec_sub_args(fuel: nat, c: MCtx, args: Seq<Term>, a: int) -> bool
    decreases fuel, 5int, args.len() - a,
{
    if a < 0 || a >= args.len() {
        true
    } else {
        match spec_infer_sort(fuel, c, args[a]) {
            Ok(s) => s == 0 && match spec_eval(fuel, c.sig, c.env, args[a]) {
                None => false,
                Some(av) => match spec_bind(c, av) {
                    None => false,
                    Some(ext) => spec_sub_args(fuel, ext, args, a + 1),
                },
            },
            Err(_) => false,
        }
    }
}

/// Whether inductive `i` has at most one proof: no constructor, or one
/// constructor whose arguments are all proofs.
pub open spec fn spec_is_subsingleton(fuel: nat, sig: Seq<Inductive>, i: usize) -> bool
    decreases fuel, 0int, 0int,
{
    if fuel == 0 || i >= sig.len() {
        false
    } else if sig[i as int].constructors@.len() > 1 {
        false
    } else if sig[i as int].constructors@.len() == 0 {
        true
    } else {
        let f = (fuel - 1) as nat;
        match spec_sub_params(f, spec_empty_ctx(sig, Seq::empty()), sig[i as int].params@, 0) {
            None => false,
            Some(c) => spec_sub_args(f, c, sig[i as int].constructors@[0].args@, 0),
        }
    }
}

pub(crate) fn need<T>(o: Option<T>) -> (r: Result<T, KernelError>)
    ensures
        o matches Some(v) ==> r == Ok::<T, KernelError>(v),
        o is None ==> r == Err::<T, KernelError>(KernelError::Malformed),
{
    match o {
        Some(v) => Ok(v),
        None => Err(KernelError::Malformed),
    }
}

/// The level of a sort: 0 for `Prop`, `n + 1` for `Universe(n)`.
fn level_of_sort(sort: &Value) -> (r: Option<u32>)
    ensures
        match *sort {
            Value::Prop => r == Some(0u32),
            Value::Universe(n) => r == (if n < u32::MAX {
                Some((n + 1) as u32)
            } else {
                None
            }),
            _ => r is None,
        },
        r == spec_level_of_sort(mval(*sort)),
{
    match sort {
        Value::Prop => Some(0),
        Value::Universe(n) => {
            if *n < u32::MAX {
                Some(*n + 1)
            } else {
                None
            }
        },
        _ => None,
    }
}

/// The sort of a level: `Prop` for 0, `Universe(level - 1)` otherwise.
fn sort_value(level: u32) -> (r: Value)
    ensures
        level == 0 ==> r == Value::Prop,
        level > 0 ==> r == Value::Universe((level - 1) as u32),
        mval(r) == spec_sort_value(level),
{
    if level == 0 {
        Value::Prop
    } else {
        Value::Universe(level - 1)
    }
}

fn max_u32(a: u32, b: u32) -> (r: u32)
    ensures
        r == vstd::math::max(a as int, b as int),
        r == spec_max_u32(a, b),
{
    if a >= b {
        a
    } else {
        b
    }
}

/// The type of a neutral value.
#[verifier::loop_isolation(false)]
fn type_of_neutral(fuel: u64, ctx: &Context, neutral: &Neutral) -> (r: Option<Rc<Value>>)
    ensures
        fuel == 0 ==> r is None,
        omval(r) == spec_type_of_neutral(fuel as nat, mctx(*ctx), mneu(*neutral)),
    decreases fuel, 0u64,
{
    if fuel == 0 {
        return None;
    }
    let ghost c = mctx(*ctx);
    proof {
        lemma_mvals_index(ctx.types@);
    }
    match neutral {
        Neutral::Var(l) => {
            if *l < ctx.types.len() {
                Some(ctx.types[*l].clone())
            } else {
                None
            }
        },
        Neutral::App(f, a) => {
            let ft = type_of_neutral(fuel - 1, ctx, f)?;
            match &*ft {
                Value::Pi(_, clo) => clo.apply(fuel - 1, a.clone()),
                _ => None,
            }
        },
        Neutral::Fst(p) => {
            let pt = type_of_neutral(fuel - 1, ctx, p)?;
            match &*pt {
                Value::Sigma(fst_ty, _) => Some(fst_ty.clone()),
                _ => None,
            }
        },
        Neutral::Snd(p) => {
            let pt = type_of_neutral(fuel - 1, ctx, p)?;
            match &*pt {
                Value::Sigma(_, clo) => {
                    let p1 = proj1(Rc::new(Value::Neutral((**p).clone())))?;
                    clo.apply(fuel - 1, p1)
                },
                _ => None,
            }
        },
        Neutral::Rec(i, _, fixed, major) => {
            proof {
                lemma_mvals_index(fixed@);
            }
            if *i >= ctx.sig.len() {
                return None;
            }
            let np = ctx.sig[*i].params.len();
            let k = ctx.sig[*i].constructors.len();
            if np >= fixed.len() || k > fixed.len() - np - 1 {
                return None;
            }
            let ghost mf = mvals(fixed@);
            let ghost goal = spec_apply_all(
                (fuel - 1) as nat,
                ctx.sig@,
                mf[np as int],
                mf,
                (np + 1 + k) as int,
            );
            let mut ty = fixed[np].clone();
            let mut q: usize = np + 1 + k;
            while q < fixed.len()
                invariant
                    np + 1 + k <= q <= fixed@.len(),
                    spec_apply_all((fuel - 1) as nat, ctx.sig@, mval(*ty), mf, q as int) == goal,
                decreases fixed@.len() - q,
            {
                ty = apply(fuel - 1, &ctx.sig, ty, fixed[q].clone())?;
                q = q + 1;
            }
            apply(fuel - 1, &ctx.sig, ty, Rc::new(Value::Neutral((**major).clone())))
        },
        Neutral::Axiom(i) => {
            if *i < ctx.axioms.len() {
                let env0: Env = Vec::new();
                assert(mvals(env0@) == Seq::<MValue>::empty());
                eval_fuel(fuel - 1, &ctx.sig, &env0, &ctx.axioms[*i])
            } else {
                None
            }
        },
    }
}

/// The level of the sort that a type lives in (0 means the type is a
/// proposition).
fn sort_level_of_type_fuel(fuel: u64, ctx: &Context, ty: &Rc<Value>) -> (r: Option<u32>)
    ensures
        fuel == 0 ==> r is None,
        fuel > 0 ==> match **ty {
            Value::Prop => r == Some(1u32),
            Value::Universe(n) => r == (if n <= u32::MAX - 2 {
                Some((n + 2) as u32)
            } else {
                None
            }),
            Value::Ind(i, _) => r == (if i < ctx.spec_sig()@.len() {
                Some(ctx.spec_sig()@[i as int].sort)
            } else {
                None
            }),
            Value::Lam(..) | Value::Pair(..) | Value::Constr(..) | Value::RecApp(..) => r is None,
            _ => true,
        },
        r == spec_sort_level(fuel as nat, mctx(*ctx), mval(**ty)),
    decreases fuel, 0u64,
{
    if fuel == 0 {
        return None;
    }
    match &**ty {
        Value::Prop => Some(1),
        Value::Universe(n) => {
            if *n <= u32::MAX - 2 {
                Some(*n + 2)
            } else {
                None
            }
        },
        Value::Pi(a, clo) => {
            let domain = sort_level_of_type_fuel(fuel - 1, ctx, a)?;
            let extended = ctx.bind(a.clone())?;
            let body = clo.apply(fuel - 1, var(ctx.level))?;
            let codomain = sort_level_of_type_fuel(fuel - 1, &extended, &body)?;
            if codomain == 0 {
                Some(0)
            } else {
                Some(max_u32(domain, codomain))
            }
        },
        Value::Sigma(a, clo) => {
            let domain = sort_level_of_type_fuel(fuel - 1, ctx, a)?;
            let extended = ctx.bind(a.clone())?;
            let body = clo.apply(fuel - 1, var(ctx.level))?;
            let codomain = sort_level_of_type_fuel(fuel - 1, &extended, &body)?;
            Some(max_u32(domain, codomain))
        },
        Value::Neutral(n) => {
            let t = type_of_neutral(fuel - 1, ctx, n)?;
            level_of_sort(&t)
        },
        Value::Ind(i, _) => {
            if *i < ctx.sig.len() {
                Some(ctx.sig[*i].sort)
            } else {
                None
            }
        },
        _ => None,
    }
}

pub(crate) fn is_prop(fuel: u64, ctx: &Context, ty: &Rc<Value>) -> (r: Option<bool>)
    ensures
        fuel == 0 ==> r is None,
        r == spec_is_prop(fuel as nat, mctx(*ctx), mval(**ty)),
    decreases fuel, 1u64,
{
    if fuel == 0 {
        return None;
    }
    let l = sort_level_of_type_fuel(fuel - 1, ctx, ty)?;
    Some(l == 0)
}

/// Type-directed conversion: proofs of propositions are all equal, and
/// functions and pairs are compared by their extensional behaviour.
fn conv(fuel: u64, ctx: &Context, ty: &Rc<Value>, x: &Rc<Value>, y: &Rc<Value>) -> (r: Option<
    bool,
>)
    ensures
        fuel == 0 ==> r is None,
        r == spec_conv(fuel as nat, mctx(*ctx), mval(**ty), mval(**x), mval(**y)),
    decreases fuel, 2u64,
{
    if fuel == 0 {
        return None;
    }
    if is_prop(fuel - 1, ctx, ty)? {
        return Some(true);
    }
    match &**ty {
        Value::Pi(a, clo) => {
            let v = var(ctx.level);
            let extended = ctx.bind(a.clone())?;
            let cod = clo.apply(fuel - 1, v.clone())?;
            let xa = apply(fuel - 1, &ctx.sig, x.clone(), v.clone())?;
            let ya = apply(fuel - 1, &ctx.sig, y.clone(), v)?;
            conv(fuel - 1, &extended, &cod, &xa, &ya)
        },
        Value::Sigma(a, clo) => {
            let x1 = proj1(x.clone())?;
            let y1 = proj1(y.clone())?;
            if !conv(fuel - 1, ctx, a, &x1, &y1)? {
                return Some(false);
            }
            let snd_ty = clo.apply(fuel - 1, x1)?;
            let x2 = crate::value::proj2(x.clone())?;
            let y2 = crate::value::proj2(y.clone())?;
            conv(fuel - 1, ctx, &snd_ty, &x2, &y2)
        },
        _ => conv_nf(fuel - 1, ctx, x, y),
    }
}

/// Structural conversion of values, with η for functions.
fn conv_nf(fuel: u64, ctx: &Context, x: &Rc<Value>, y: &Rc<Value>) -> (r: Option<bool>)
    ensures
        fuel == 0 ==> r is None,
        fuel > 0 ==> match (**x, **y) {
            (Value::Universe(a), Value::Universe(b)) => r == Some(a == b),
            (Value::Prop, Value::Prop) => r == Some(true),
            (Value::Universe(_), Value::Prop) | (Value::Prop, Value::Universe(_)) => r == Some(
                false,
            ),
            _ => true,
        },
        r == spec_conv_nf(fuel as nat, mctx(*ctx), mval(**x), mval(**y)),
    decreases fuel, 2u64,
{
    if fuel == 0 {
        return None;
    }
    match (&**x, &**y) {
        (Value::Universe(a), Value::Universe(b)) => Some(*a == *b),
        (Value::Prop, Value::Prop) => Some(true),
        (Value::Pi(a1, c1), Value::Pi(a2, c2)) => {
            if !conv_nf(fuel - 1, ctx, a1, a2)? {
                return Some(false);
            }
            let extended = ctx.bind(a1.clone())?;
            let b1 = c1.apply(fuel - 1, var(ctx.level))?;
            let b2 = c2.apply(fuel - 1, var(ctx.level))?;
            conv_nf(fuel - 1, &extended, &b1, &b2)
        },
        (Value::Sigma(a1, c1), Value::Sigma(a2, c2)) => {
            if !conv_nf(fuel - 1, ctx, a1, a2)? {
                return Some(false);
            }
            let extended = ctx.bind(a1.clone())?;
            let b1 = c1.apply(fuel - 1, var(ctx.level))?;
            let b2 = c2.apply(fuel - 1, var(ctx.level))?;
            conv_nf(fuel - 1, &extended, &b1, &b2)
        },
        (Value::Neutral(n1), Value::Neutral(n2)) => {
            let t = conv_neutral(fuel - 1, ctx, n1, n2)?;
            Some(t.is_some())
        },
        (Value::Ind(i1, s1), Value::Ind(i2, s2)) => {
            if *i1 != *i2 {
                return Some(false);
            }
            conv_spine(fuel - 1, ctx, s1, s2)
        },
        (Value::Constr(i1, j1, s1), Value::Constr(i2, j2, s2)) => {
            if *i1 != *i2 || *j1 != *j2 {
                return Some(false);
            }
            conv_spine(fuel - 1, ctx, s1, s2)
        },
        (Value::RecApp(i1, t1, s1), Value::RecApp(i2, t2, s2)) => {
            if *i1 != *i2 || *t1 != *t2 {
                return Some(false);
            }
            conv_spine(fuel - 1, ctx, s1, s2)
        },
        (Value::Lam(a1, c1), Value::Lam(_, c2)) => {
            let extended = ctx.bind(a1.clone())?;
            let b1 = c1.apply(fuel - 1, var(ctx.level))?;
            let b2 = c2.apply(fuel - 1, var(ctx.level))?;
            conv_nf(fuel - 1, &extended, &b1, &b2)
        },
        (Value::Lam(a1, c1), Value::Neutral(_)) => {
            let extended = ctx.bind(a1.clone())?;
            let b1 = c1.apply(fuel - 1, var(ctx.level))?;
            let b2 = apply(fuel - 1, &ctx.sig, y.clone(), var(ctx.level))?;
            conv_nf(fuel - 1, &extended, &b1, &b2)
        },
        (Value::Neutral(_), Value::Lam(a2, c2)) => {
            let extended = ctx.bind(a2.clone())?;
            let b1 = apply(fuel - 1, &ctx.sig, x.clone(), var(ctx.level))?;
            let b2 = c2.apply(fuel - 1, var(ctx.level))?;
            conv_nf(fuel - 1, &extended, &b1, &b2)
        },
        (Value::Pair(_, a1, b1), Value::Pair(_, a2, b2)) => {
            if !conv_nf(fuel - 1, ctx, a1, a2)? {
                return Some(false);
            }
            conv_nf(fuel - 1, ctx, b1, b2)
        },
        _ => Some(false),
    }
}

/// Pointwise conversion of two spines of the same length.
fn conv_spine(fuel: u64, ctx: &Context, x: &Vec<Rc<Value>>, y: &Vec<Rc<Value>>) -> (r: Option<
    bool,
>)
    ensures
        fuel == 0 ==> r is None,
        fuel > 0 && x@.len() != y@.len() ==> r == Some(false),
        fuel > 0 && x@.len() == 0 && y@.len() == 0 ==> r == Some(true),
        r == spec_conv_spine(fuel as nat, mctx(*ctx), mvals(x@), mvals(y@)),
    decreases fuel, 1u64,
{
    proof {
        lemma_mvals_index(x@);
        lemma_mvals_index(y@);
    }
    if fuel == 0 {
        return None;
    }
    if x.len() != y.len() {
        return Some(false);
    }
    let ghost mx = mvals(x@);
    let ghost my = mvals(y@);
    let ghost goal = spec_conv_spine_from((fuel - 1) as nat, mctx(*ctx), mx, my, 0);
    let mut i: usize = 0;
    while i < x.len()
        invariant
            i <= x@.len(),
            x@.len() == y@.len(),
            fuel > 0,
            mx == mvals(x@),
            my == mvals(y@),
            mx.len() == x@.len(),
            my.len() == y@.len(),
            forall|k: int| 0 <= k < x@.len() ==> #[trigger] mx[k] == mval(*x@[k]),
            forall|k: int| 0 <= k < y@.len() ==> #[trigger] my[k] == mval(*y@[k]),
            spec_conv_spine_from((fuel - 1) as nat, mctx(*ctx), mx, my, i as int) == goal,
            goal == spec_conv_spine(fuel as nat, mctx(*ctx), mx, my),
        decreases x@.len() - i,
    {
        if !conv_nf(fuel - 1, ctx, &x[i], &y[i])? {
            return Some(false);
        }
        i = i + 1;
    }
    Some(true)
}

/// Conversion of neutral values; on success, their common type.
/// The outer `None` is a failure of evaluation.
fn conv_neutral(fuel: u64, ctx: &Context, x: &Neutral, y: &Neutral) -> (r: Option<
    Option<Rc<Value>>,
>)
    ensures
        fuel == 0 ==> r is None,
        fuel > 0 ==> match (*x, *y) {
            (Neutral::Var(i), Neutral::Var(j)) => if i == j {
                r == (if i < ctx.spec_types().len() {
                    Some(Some(ctx.spec_types()[i as int]))
                } else {
                    None::<Option<Rc<Value>>>
                })
            } else {
                r == Some(None::<Rc<Value>>)
            },
            (Neutral::Axiom(i), Neutral::Axiom(j)) => i != j ==> r == Some(None::<Rc<Value>>),
            (Neutral::Var(_), _) | (_, Neutral::Var(_)) => r == Some(None::<Rc<Value>>),
            _ => true,
        },
        oomval(r) == spec_conv_neutral(fuel as nat, mctx(*ctx), mneu(*x), mneu(*y)),
    decreases fuel, 2u64,
{
    if fuel == 0 {
        return None;
    }
    proof {
        lemma_mvals_index(ctx.types@);
    }
    match (x, y) {
        (Neutral::Var(i), Neutral::Var(j)) => {
            if *i == *j {
                if *i < ctx.types.len() {
                    Some(Some(ctx.types[*i].clone()))
                } else {
                    None
                }
            } else {
                Some(None)
            }
        },
        (Neutral::App(f1, a1), Neutral::App(f2, a2)) => {
            let ft = conv_neutral(fuel - 1, ctx, f1, f2)?;
            match ft {
                None => Some(None),
                Some(t) => match &*t {
                    Value::Pi(dom, clo) => {
                        if conv(fuel - 1, ctx, dom, a1, a2)? {
                            let r = clo.apply(fuel - 1, a1.clone())?;
                            Some(Some(r))
                        } else {
                            Some(None)
                        }
                    },
                    _ => Some(None),
                },
            }
        },
        (Neutral::Fst(p1), Neutral::Fst(p2)) => {
            let pt = conv_neutral(fuel - 1, ctx, p1, p2)?;
            match pt {
                None => Some(None),
                Some(t) => match &*t {
                    Value::Sigma(fst_ty, _) => Some(Some(fst_ty.clone())),
                    _ => Some(None),
                },
            }
        },
        (Neutral::Snd(p1), Neutral::Snd(p2)) => {
            let pt = conv_neutral(fuel - 1, ctx, p1, p2)?;
            match pt {
                None => Some(None),
                Some(t) => match &*t {
                    Value::Sigma(_, clo) => {
                        let p = proj1(Rc::new(Value::Neutral((**p1).clone())))?;
                        let r = clo.apply(fuel - 1, p)?;
                        Some(Some(r))
                    },
                    _ => Some(None),
                },
            }
        },
        (Neutral::Rec(i1, t1, f1, m1), Neutral::Rec(i2, t2, f2, m2)) => {
            if *i1 != *i2 || *t1 != *t2 {
                return Some(None);
            }
            if !conv_spine(fuel - 1, ctx, f1, f2)? {
                return Some(None);
            }
            let mt = conv_neutral(fuel - 1, ctx, m1, m2)?;
            if mt.is_none() {
                return Some(None);
            }
            let ty = type_of_neutral(fuel - 1, ctx, x)?;
            Some(Some(ty))
        },
        (Neutral::Axiom(i), Neutral::Axiom(j)) => {
            if *i == *j {
                let ty = type_of_neutral(fuel - 1, ctx, x)?;
                Some(Some(ty))
            } else {
                Some(None)
            }
        },
        _ => Some(None),
    }
}

/// Infers the type of a term in a context.
pub fn infer_fuel(fuel: u64, ctx: &Context, term: &Term) -> (r: Result<Rc<Value>, KernelError>)
    ensures
        fuel == 0 ==> r == Err::<Rc<Value>, KernelError>(KernelError::Malformed),
        fuel > 0 ==> match *term {
            Term::Var(i) => r == (if i < ctx.spec_types().len() {
                Ok(ctx.spec_types()[ctx.spec_types().len() - 1 - i])
            } else {
                Err::<Rc<Value>, KernelError>(KernelError::UnboundVariable(i))
            }),
            Term::Universe(n) => if n < u32::MAX {
                r matches Ok(v) && *v == Value::Universe((n + 1) as u32)
            } else {
                r == Err::<Rc<Value>, KernelError>(KernelError::Malformed)
            },
            Term::Prop => r matches Ok(v) && *v == Value::Universe(0),
            Term::Ind(i) => i >= ctx.spec_sig()@.len() ==> r == Err::<Rc<Value>, KernelError>(
                KernelError::UnknownInductive(i),
            ),
            Term::Constr(i, j) => (i >= ctx.spec_sig()@.len() || j >= ctx.spec_sig()@[
                i as int
            ].constructors@.len()) ==> r == Err::<Rc<Value>, KernelError>(
                KernelError::UnknownConstructor(i, j),
            ),
            Term::Rec(i, _) => i >= ctx.spec_sig()@.len() ==> r == Err::<Rc<Value>, KernelError>(
                KernelError::UnknownInductive(i),
            ),
            Term::Axiom(i) => i >= ctx.spec_axioms().len() ==> r == Err::<
                Rc<Value>,
                KernelError,
            >(KernelError::UnknownAxiom(i)),
            _ => true,
        },
        rmval(r) == spec_infer(fuel as nat, mctx(*ctx), *term),
    decreases fuel, 3u64,
{
    if fuel == 0 {
        return Err(KernelError::Malformed);
    }
    proof {
        lemma_mvals_index(ctx.types@);
    }
    match term {
        Term::Var(i) => {
            if *i < ctx.types.len() {
                Ok(ctx.types[ctx.types.len() - 1 - *i].clone())
            } else {
                Err(KernelError::UnboundVariable(*i))
            }
        },
        Term::Universe(n) => {
            if *n < u32::MAX {
                Ok(Rc::new(Value::Universe(*n + 1)))
            } else {
                Err(KernelError::Malformed)
            }
        },
        Term::Prop => Ok(Rc::new(Value::Universe(0))),
        Term::Pi(a, b) => infer_binder(fuel, ctx, a, b, true),
        Term::Lam(a, t) => infer_lam(fuel, ctx, a, t),
        Term::App(f, x) => infer_app(fuel, ctx, f, x),
        Term::Sigma(a, b) => infer_binder(fuel, ctx, a, b, false),
        Term::Pair(s, a, b) => infer_pair(fuel, ctx, s, a, b),
        Term::Fst(p) => {
            let pt = infer_fuel(fuel - 1, ctx, p)?;
            match &*pt {
                Value::Sigma(fst_ty, _) => Ok(fst_ty.clone()),
                _ => Err(KernelError::FstOfNonPair),
            }
        },
        Term::Snd(p) => {
            let pt = infer_fuel(fuel - 1, ctx, p)?;
            match &*pt {
                Value::Sigma(_, clo) => {
                    let pv = need(eval_fuel(fuel - 1, &ctx.sig, &ctx.env, p))?;
                    let p1 = need(proj1(pv))?;
                    need(clo.apply(fuel - 1, p1))
                },
                _ => Err(KernelError::SndOfNonPair),
            }
        },
        Term::Ind(_) | Term::Constr(..) | Term::Rec(..) | Term::Axiom(_) => infer_global(
            fuel,
            ctx,
            term,
        ),
    }
}

/// The type of a Π-type (`pi`) or a Σ-type: a sort, `Prop` for a Π-type
/// into a proposition.
fn infer_binder(fuel: u64, ctx: &Context, a: &Term, b: &Term, pi: bool) -> (r: Result<
    Rc<Value>,
    KernelError,
>)
    requires
        fuel > 0,
    ensures
        rmval(r) == spec_infer(
            fuel as nat,
            mctx(*ctx),
            if pi {
                Term::Pi(Box::new(*a), Box::new(*b))
            } else {
                Term::Sigma(Box::new(*a), Box::new(*b))
            },
        ),
    decreases fuel, 2u64,
{
    let domain = infer_sort(fuel - 1, ctx, a)?;
    let av = need(eval_fuel(fuel - 1, &ctx.sig, &ctx.env, a))?;
    let extended = need(ctx.bind(av))?;
    let codomain = infer_sort(fuel - 1, &extended, b)?;
    let s = if pi && codomain == 0 {
        0
    } else {
        max_u32(domain, codomain)
    };
    Ok(Rc::new(sort_value(s)))
}

/// The type of a λ: a Π-type whose codomain is the body's type, read back
/// under the binder.
fn infer_lam(fuel: u64, ctx: &Context, a: &Term, t: &Term) -> (r: Result<Rc<Value>, KernelError>)
    requires
        fuel > 0,
    ensures
        rmval(r) == spec_infer(fuel as nat, mctx(*ctx), Term::Lam(Box::new(*a), Box::new(*t))),
    decreases fuel, 2u64,
{
    infer_sort(fuel - 1, ctx, a)?;
    let av = need(eval_fuel(fuel - 1, &ctx.sig, &ctx.env, a))?;
    lam_type(fuel - 1, ctx, av, t)
}

/// See `spec_lam_type`.
fn lam_type(fuel: u64, ctx: &Context, av: Rc<Value>, t: &Term) -> (r: Result<
    Rc<Value>,
    KernelError,
>)
    ensures
        rmval(r) == spec_lam_type(fuel as nat, mctx(*ctx), mval(*av), *t),
    decreases fuel, 5u64,
{
    let extended = need(ctx.bind(av.clone()))?;
    let body_ty = infer_fuel(fuel, &extended, t)?;
    pi_of(fuel, ctx, av, extended.level, &body_ty)
}

/// See `spec_pi_of`.
fn pi_of(fuel: u64, ctx: &Context, av: Rc<Value>, level: usize, body_ty: &Rc<Value>) -> (r: Result<
    Rc<Value>,
    KernelError,
>)
    ensures
        rmval(r) == spec_pi_of(fuel as nat, mctx(*ctx), mval(*av), level, mval(**body_ty)),
{
    proof {
        reveal(spec_pi_of);
    }
    let codomain = need(quote_fuel(fuel, level, body_ty))?;
    let clo = Closure { env: clone_env(&ctx.env), body: codomain, sig: ctx.sig.clone() };
    proof {
        lemma_mclo(clo);
    }
    Ok(Rc::new(Value::Pi(av, clo)))
}

/// The type of an application: the function's Π-type at the argument,
/// which must check against the domain.
fn infer_app(fuel: u64, ctx: &Context, f: &Term, x: &Term) -> (r: Result<Rc<Value>, KernelError>)
    requires
        fuel > 0,
    ensures
        rmval(r) == spec_infer(fuel as nat, mctx(*ctx), Term::App(Box::new(*f), Box::new(*x))),
    decreases fuel, 2u64,
{
    let ft = infer_fuel(fuel - 1, ctx, f)?;
    match &*ft {
        Value::Pi(a, clo) => {
            check_fuel(fuel - 1, ctx, x, a)?;
            let xv = need(eval_fuel(fuel - 1, &ctx.sig, &ctx.env, x))?;
            need(clo.apply(fuel - 1, xv))
        },
        _ => Err(KernelError::NotAFunction),
    }
}

/// The type of a pair: its annotation, which must be a Σ-type whose
/// components the pair's components check against.
fn infer_pair(fuel: u64, ctx: &Context, s: &Term, a: &Term, b: &Term) -> (r: Result<
    Rc<Value>,
    KernelError,
>)
    requires
        fuel > 0,
    ensures
        rmval(r) == spec_infer(
            fuel as nat,
            mctx(*ctx),
            Term::Pair(Box::new(*s), Box::new(*a), Box::new(*b)),
        ),
    decreases fuel, 2u64,
{
    infer_sort(fuel - 1, ctx, s)?;
    let sv = need(eval_fuel(fuel - 1, &ctx.sig, &ctx.env, s))?;
    match &*sv {
        Value::Sigma(fst_ty, clo) => {
            check_fuel(fuel - 1, ctx, a, fst_ty)?;
            let av = need(eval_fuel(fuel - 1, &ctx.sig, &ctx.env, a))?;
            let snd_ty = need(clo.apply(fuel - 1, av))?;
            check_fuel(fuel - 1, ctx, b, &snd_ty)?;
            Ok(sv.clone())
        },
        _ => Err(KernelError::PairNotSigma),
    }
}

/// The type of a type former, constructor, recursor or axiom of the
/// signature: its declared type, evaluated.
fn infer_global(fuel: u64, ctx: &Context, term: &Term) -> (r: Result<Rc<Value>, KernelError>)
    requires
        fuel > 0,
        term is Ind || term is Constr || term is Rec || term is Axiom,
    ensures
        rmval(r) == spec_infer(fuel as nat, mctx(*ctx), *term),
    decreases fuel, 2u64,
{
    let env0: Env = Vec::new();
    assert(mvals(env0@) == Seq::<MValue>::empty());
    match term {
        Term::Ind(i) => {
            if *i >= ctx.sig.len() {
                return Err(KernelError::UnknownInductive(*i));
            }
            let ty = ind_type_term(&ctx.sig, *i);
            need(eval_fuel(fuel - 1, &ctx.sig, &env0, &ty))
        },
        Term::Constr(i, j) => {
            if *i >= ctx.sig.len() || *j >= ctx.sig[*i].constructors.len() {
                return Err(KernelError::UnknownConstructor(*i, *j));
            }
            let ty = need(constr_type_term(&ctx.sig, *i, *j))?;
            need(eval_fuel(fuel - 1, &ctx.sig, &env0, &ty))
        },
        Term::Rec(i, t) => {
            if *i >= ctx.sig.len() {
                return Err(KernelError::UnknownInductive(*i));
            }
            if ctx.sig[*i].sort == 0 && *t != 0 && !is_subsingleton(fuel - 1, &ctx.sig, *i) {
                return Err(KernelError::LargeElimination);
            }
            let ty = need(rec_type_term(&ctx.sig, *i, *t))?;
            need(eval_fuel(fuel - 1, &ctx.sig, &env0, &ty))
        },
        Term::Axiom(i) => {
            if *i >= ctx.axioms.len() {
                return Err(KernelError::UnknownAxiom(*i));
            }
            need(eval_fuel(fuel - 1, &ctx.sig, &env0, &ctx.axioms[*i]))
        },
        _ => Err(KernelError::Malformed),
    }
}

/// The sort level of a term's type, with the type inferred at budget
/// `fuel` (the budget `infer` uses).
pub(crate) fn infer_sort_at(fuel: u64, ctx: &Context, term: &Term) -> (r: Result<u32, KernelError>)
    ensures
        r == spec_infer_sort((fuel + 1) as nat, mctx(*ctx), *term),
{
    let t = infer_fuel(fuel, ctx, term)?;
    match &*t {
        Value::Prop | Value::Universe(_) => need(level_of_sort(&t)),
        _ => Err(KernelError::ExpectedType),
    }
}

/// Infers the type of a term and requires it to be a sort; returns the
/// sort's level.
pub fn infer_sort(fuel: u64, ctx: &Context, term: &Term) -> (r: Result<u32, KernelError>)
    ensures
        fuel == 0 ==> r == Err::<u32, KernelError>(KernelError::Malformed),
        fuel > 1 && term is Prop ==> r == Ok::<u32, KernelError>(1),
        r == spec_infer_sort(fuel as nat, mctx(*ctx), *term),
    decreases fuel, 4u64,
{
    if fuel == 0 {
        return Err(KernelError::Malformed);
    }
    let t = infer_fuel(fuel - 1, ctx, term)?;
    match &*t {
        Value::Prop | Value::Universe(_) => need(level_of_sort(&t)),
        _ => Err(KernelError::ExpectedType),
    }
}

/// Checks a term against an expected type: its inferred type must be
/// convertible to the expected one.
pub fn check_fuel(fuel: u64, ctx: &Context, term: &Term, expected: &Rc<Value>) -> (r: Result<
    (),
    KernelError,
>)
    ensures
        fuel == 0 ==> r == Err::<(), KernelError>(KernelError::Malformed),
        r == spec_check(fuel as nat, mctx(*ctx), *term, mval(**expected)),
    decreases fuel, 4u64,
{
    if fuel == 0 {
        return Err(KernelError::Malformed);
    }
    let inferred = infer_fuel(fuel - 1, ctx, term)?;
    if need(conv_nf(fuel - 1, ctx, &inferred, expected))? {
        Ok(())
    } else {
        let a = need(quote_fuel(fuel - 1, ctx.level, &inferred))?;
        let b = need(quote_fuel(fuel - 1, ctx.level, expected))?;
        Err(KernelError::TypeMismatch(a, b))
    }
}

/// Whether a proposition has at most one proof: no constructor, or one
/// constructor whose arguments are all proofs.
#[verifier::loop_isolation(false)]
pub fn is_subsingleton(fuel: u64, sig: &Rc<Sig>, i: usize) -> (r: bool)
    ensures
        i < sig@.len() && sig@[i as int].constructors@.len() > 1 ==> !r,
        fuel > 0 && i < sig@.len() && sig@[i as int].constructors@.len() == 0 ==> r,
        i >= sig@.len() ==> !r,
        r == spec_is_subsingleton(fuel as nat, sig@, i),
    decreases fuel, 0u64,
{
    if fuel == 0 || i >= sig.len() {
        return false;
    }
    let ind = &sig[i];
    if ind.constructors.len() > 1 {
        return false;
    }
    if ind.constructors.len() == 0 {
        return true;
    }
    let mut ctx = Context::with_sig(sig.clone());
    let ghost f = (fuel - 1) as nat;
    let ghost params = ind.params@;
    let ghost args_s = ind.constructors@[0].args@;
    let ghost want = spec_is_subsingleton(fuel as nat, sig@, i);
    let ghost goal_p = spec_sub_params(f, mctx(ctx), params, 0);
    assert(want == match goal_p {
        None => false,
        Some(c) => spec_sub_args(f, c, args_s, 0),
    });
    let mut p: usize = 0;
    while p < ind.params.len()
        invariant
            p <= ind.params@.len(),
            params == ind.params@,
            spec_sub_params(f, mctx(ctx), params, p as int) == goal_p,
        decreases ind.params@.len() - p,
    {
        if infer_sort(fuel - 1, &ctx, &ind.params[p]).is_err() {
            return false;
        }
        let pv = match eval_fuel(fuel - 1, &ctx.sig, &ctx.env, &ind.params[p]) {
            Some(v) => v,
            None => return false,
        };
        ctx = match ctx.bind(pv) {
            Some(c) => c,
            None => return false,
        };
        p = p + 1;
    }
    let args = &ind.constructors[0].args;
    let ghost goal_a = spec_sub_args(f, mctx(ctx), args_s, 0);
    assert(want == goal_a);
    let mut a: usize = 0;
    while a < args.len()
        invariant
            a <= args@.len(),
            args_s == args@,
            spec_sub_args(f, mctx(ctx), args_s, a as int) == goal_a,
        decreases args@.len() - a,
    {
        match infer_sort(fuel - 1, &ctx, &args[a]) {
            Ok(s) => {
                if s != 0 {
                    return false;
                }
            },
            Err(_) => return false,
        }
        let av = match eval_fuel(fuel - 1, &ctx.sig, &ctx.env, &args[a]) {
            Some(v) => v,
            None => return false,
        };
        ctx = match ctx.bind(av) {
            Some(c) => c,
            None => return false,
        };
        a = a + 1;
    }
    true
}

/// Infers the type of a term in a context.
pub fn infer(ctx: &Context, term: &Term) -> (r: Result<Rc<Value>, KernelError>)
    ensures
        match *term {
            Term::Var(i) => r == (if i < ctx.spec_types().len() {
                Ok(ctx.spec_types()[ctx.spec_types().len() - 1 - i])
            } else {
                Err::<Rc<Value>, KernelError>(KernelError::UnboundVariable(i))
            }),
            Term::Universe(n) => if n < u32::MAX {
                r matches Ok(v) && *v == Value::Universe((n + 1) as u32)
            } else {
                r == Err::<Rc<Value>, KernelError>(KernelError::Malformed)
            },
            Term::Prop => r matches Ok(v) && *v == Value::Universe(0),
            Term::Ind(i) => i >= ctx.spec_sig()@.len() ==> r == Err::<Rc<Value>, KernelError>(
                KernelError::UnknownInductive(i),
            ),
            Term::Constr(i, j) => (i >= ctx.spec_sig()@.len() || j >= ctx.spec_sig()@[
                i as int
            ].constructors@.len()) ==> r == Err::<Rc<Value>, KernelError>(
                KernelError::UnknownConstructor(i, j),
            ),
            Term::Rec(i, _) => i >= ctx.spec_sig()@.len() ==> r == Err::<Rc<Value>, KernelError>(
                KernelError::UnknownInductive(i),
            ),
            Term::Axiom(i) => i >= ctx.spec_axioms().len() ==> r == Err::<
                Rc<Value>,
                KernelError,
            >(KernelError::UnknownAxiom(i)),
            _ => true,
        },
        rmval(r) == spec_infer(FUEL as nat, mctx(*ctx), *term),
{
    infer_fuel(FUEL, ctx, term)
}

/// What checking against an expected type gives: the error of
/// inference, or the verdict of converting the inferred type to the
/// expected one (a mismatch reports both types, read back).
pub open spec fn spec_check_with(fuel: nat, c: MCtx, inferred: Result<MValue, KernelError>, expected: MValue) -> Result<
    (),
    KernelError,
> {
    match inferred {
        Err(e) => Err(e),
        Ok(ty) => match spec_conv_nf(fuel, c, ty, expected) {
            None => Err(KernelError::Malformed),
            Some(true) => Ok(()),
            Some(false) => match (spec_quote(fuel, c.level, ty), spec_quote(fuel, c.level, expected)) {
                (Some(a), Some(b)) => Err(KernelError::TypeMismatch(a, b)),
                _ => Err(KernelError::Malformed),
            },
        },
    }
}

/// Checks a term against an expected type: `infer`, then conversion of
/// the inferred type to the expected one.
pub fn check(ctx: &Context, term: &Term, expected: &Rc<Value>) -> (r: Result<(), KernelError>)
    ensures
        r == spec_check_with(FUEL as nat, mctx(*ctx), spec_infer(FUEL as nat, mctx(*ctx), *term), mval(**expected)),
{
    let inferred = infer_fuel(FUEL, ctx, term)?;
    if need(conv_nf(FUEL, ctx, &inferred, expected))? {
        Ok(())
    } else {
        let a = need(quote_fuel(FUEL, ctx.level, &inferred))?;
        let b = need(quote_fuel(FUEL, ctx.level, expected))?;
        Err(KernelError::TypeMismatch(a, b))
    }
}

/// Law: checking agrees with `infer` followed by conversion: an inference
/// error is the checking error, and otherwise checking succeeds exactly
/// when the inferred type converts to the expected one.
pub proof fn lemma_check_is_infer_then_conv(c: MCtx, t: Term, expected: MValue)
    ensures
        spec_infer(FUEL as nat, c, t) matches Err(e) ==> spec_check_with(FUEL as nat, c, spec_infer(FUEL as nat, c, t), expected) == Err::<(), KernelError>(e),
        spec_infer(FUEL as nat, c, t) matches Ok(ty) ==> (spec_check_with(FUEL as nat, c, spec_infer(FUEL as nat, c, t), expected) is Ok <==> spec_conv_nf(FUEL as nat, c, ty, expected) == Some(true)),
{
}

/// Evaluates a term in an environment; `None` when evaluation fails.
pub fn eval(sig: &Rc<Sig>, env: &Env, term: &Term) -> (r: Option<Rc<Value>>)
    ensures
        match *term {
            Term::Var(i) => r == (if i < env@.len() {
                Some(env@[env@.len() - 1 - i])
            } else {
                None
            }),
            Term::Universe(n) => r matches Some(v) && *v == Value::Universe(n),
            Term::Prop => r matches Some(v) && *v == Value::Prop,
            Term::Axiom(i) => r matches Some(v) && *v == Value::Neutral(Neutral::Axiom(i)),
            _ => true,
        },
        omval(r) == spec_eval(FUEL as nat, sig@, mvals(env@), *term),
{
    eval_fuel(FUEL, sig, env, term)
}

/// Reads a value back into a normal-form term; `level` is the number of
/// variables in scope.
pub fn quote(level: usize, value: &Rc<Value>) -> (r: Option<Term>)
    ensures
        match **value {
            Value::Universe(n) => r == Some(Term::Universe(n)),
            Value::Prop => r == Some(Term::Prop),
            _ => true,
        },
        r == spec_quote(FUEL as nat, level, mval(**value)),
{
    quote_fuel(FUEL, level, value)
}

/// The normal form of a closed term over the empty signature.
pub fn normalize(term: &Term) -> (r: Option<Term>)
    ensures
        match *term {
            Term::Universe(n) => r == Some(Term::Universe(n)),
            Term::Prop => r == Some(Term::Prop),
            Term::Var(_) => r is None,
            _ => true,
        },
        r == match spec_eval(FUEL as nat, Seq::empty(), Seq::empty(), *term) {
            Some(v) => spec_quote(FUEL as nat, 0, v),
            None => None,
        },
{
    let sig: Rc<Sig> = Rc::new(Vec::new());
    let env: Env = Vec::new();
    assert(mvals(env@) == Seq::<MValue>::empty());
    assert(sig@ == Seq::<Inductive>::empty());
    let v = eval_fuel(FUEL, &sig, &env, term)?;
    quote_fuel(FUEL, 0, &v)
}

/// The level of the sort that a type lives in (0: a proposition).
pub fn sort_level_of_type(ctx: &Context, ty: &Rc<Value>) -> (r: Option<u32>)
    ensures
        match **ty {
            Value::Prop => r == Some(1u32),
            Value::Ind(i, _) => r == (if i < ctx.spec_sig()@.len() {
                Some(ctx.spec_sig()@[i as int].sort)
            } else {
                None
            }),
            _ => true,
        },
        r == spec_sort_level(FUEL as nat, mctx(*ctx), mval(**ty)),
{
    sort_level_of_type_fuel(FUEL, ctx, ty)
}

} // verus!
