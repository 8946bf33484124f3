use vstd::prelude::*;

use crate::term::{
    apps, lift, mk_pi, pis, sort_term, spec_apps, spec_ind_head, spec_lift, spec_pis,
    spec_sort_term, spec_spine_args, spine_args, Inductive, Sig, Term,
};
use crate::value::first_order_rec_mask;

verus! {

/// The type of the type former of inductive `i`:
/// `Π params. Π indices. sort`.
pub open spec fn spec_ind_type(ind: Inductive) -> Term {
    spec_pis(ind.params@ + ind.indices@, spec_sort_term(ind.sort))
}

/// The parameters of an inductive, as variables seen from under the
/// parameters and `na` further binders.
pub open spec fn spec_param_vars(np: nat, na: nat) -> Seq<Term> {
    Seq::new(np, |p: int| Term::Var((na + np - 1 - p) as usize))
}

/// The type of constructor `j` of inductive `i`:
/// `Π params. Π args. Ind(i) params index_values`.
pub open spec fn spec_constr_type(i: usize, ind: Inductive, j: int) -> Term {
    let c = ind.constructors@[j];
    let np = ind.params@.len();
    let na = c.args@.len();
    spec_pis(
        ind.params@ + c.args@,
        spec_apps(Term::Ind(i), spec_param_vars(np, na) + c.index_values@),
    )
}

pub fn ind_type_term(sig: &Sig, i: usize) -> (r: Term)
    requires
        i < sig@.len(),
    ensures
        r == spec_ind_type(sig@[i as int]),
{
    let ind = &sig[i];
    let mut tele = ind.params.clone();
    let mut idx = ind.indices.clone();
    proof {
        assert(tele@ =~= ind.params@);
        assert(idx@ =~= ind.indices@);
    }
    tele.append(&mut idx);
    pis(tele.as_slice(), sort_term(ind.sort))
}

pub fn constr_type_term(sig: &Sig, i: usize, j: usize) -> (r: Option<Term>)
    requires
        i < sig@.len(),
        j < sig@[i as int].constructors@.len(),
    ensures
        sig@[i as int].params@.len() + sig@[i as int].constructors@[j as int].args@.len()
            <= usize::MAX ==> r == Some(spec_constr_type(i, sig@[i as int], j as int)),
        sig@[i as int].params@.len() + sig@[i as int].constructors@[j as int].args@.len()
            > usize::MAX ==> r is None,
{
    let ind = &sig[i];
    let c = &ind.constructors[j];
    let np = ind.params.len();
    let na = c.args.len();
    if na > usize::MAX - np {
        return None;
    }
    let mut result_args: Vec<Term> = Vec::new();
    let mut p: usize = 0;
    while p < np
        invariant
            np == ind.params@.len(),
            na == c.args@.len(),
            na + np <= usize::MAX,
            p <= np,
            result_args@ =~= spec_param_vars(np as nat, na as nat).subrange(0, p as int),
        decreases np - p,
    {
        result_args.push(Term::Var(na + np - 1 - p));
        p = p + 1;
    }
    let mut ivs = c.index_values.clone();
    assert(ivs@ =~= c.index_values@);
    assert(result_args@ =~= spec_param_vars(np as nat, na as nat));
    result_args.append(&mut ivs);
    assert(result_args@ =~= spec_param_vars(np as nat, na as nat) + c.index_values@);
    let result = apps(Term::Ind(i), result_args.as_slice());
    let mut tele = ind.params.clone();
    let mut args = c.args.clone();
    proof {
        assert(tele@ =~= ind.params@);
        assert(args@ =~= c.args@);
    }
    tele.append(&mut args);
    assert(tele@ =~= ind.params@ + c.args@);
    Some(pis(tele.as_slice(), result))
}

/// Lifting by `d1` above `c1`, then by `d2` above `c2`.
pub open spec fn spec_lift_twice(t: Term, d1: usize, c1: usize, d2: usize, c2: usize) -> Option<
    Term,
> {
    match spec_lift(d1, c1, t) {
        Some(x) => spec_lift(d2, c2, x),
        None => None,
    }
}

/// The number of recursive occurrences of inductive `i` among `args[..l]`.
pub open spec fn spec_nrec(i: usize, args: Seq<Term>, l: int) -> nat
    decreases l,
{
    if l <= 0 {
        0
    } else {
        spec_nrec(i, args, l - 1) + if spec_ind_head(args[l - 1]) == Some(i) {
            1nat
        } else {
            0nat
        }
    }
}

/// The induction hypothesis of argument `l`, the `q`-th recursive one of a
/// constructor with `m` arguments: the motive applied to the argument's
/// indices and to the argument.
pub open spec fn spec_ih_type(np: nat, m: nat, j: usize, l: int, q: nat, arg: Term) -> Option<
    Term,
> {
    let sp = spec_spine_args(arg);
    if sp.len() < np {
        None
    } else if forall|s: int|
        np <= s < sp.len() ==> #[trigger] spec_lift_twice(
            sp[s],
            (q + m - l) as usize,
            0,
            (j + 1) as usize,
            (q + m) as usize,
        ) is Some {
        let ihs = Seq::new(
            (sp.len() - np) as nat,
            |s: int|
                spec_lift_twice(
                    sp[s + np],
                    (q + m - l) as usize,
                    0,
                    (j + 1) as usize,
                    (q + m) as usize,
                )->0,
        );
        Some(
            spec_apps(Term::Var((q + m + j) as usize), ihs.push(Term::Var((q + (m - 1 - l)) as usize))),
        )
    } else {
        None
    }
}

/// The hypotheses of the recursive arguments among `args[..l]`, in order.
pub open spec fn spec_ih_types(i: usize, np: nat, j: usize, args: Seq<Term>, l: int) -> Seq<Term>
    decreases l,
{
    if l <= 0 {
        Seq::empty()
    } else {
        let pre = spec_ih_types(i, np, j, args, l - 1);
        if spec_ind_head(args[l - 1]) == Some(i) {
            pre.push(
                spec_ih_type(np, args.len(), j, l - 1, spec_nrec(i, args, l - 1), args[l - 1])->0,
            )
        } else {
            pre
        }
    }
}

/// The type of the method for constructor `j` of inductive `i`, under the
/// parameters, the motive and the `j` earlier methods:
/// `Π args. Π ihs. motive index_values (c_j params args)`. `None` where a
/// lift leaves the range of `usize` or a recursive argument is not applied
/// to all parameters.
pub open spec fn spec_method_type(sig: Seq<Inductive>, i: usize, j: usize) -> Option<Term> {
    let ind = sig[i as int];
    let c = ind.constructors@[j as int];
    let np = ind.params@.len();
    let args = c.args@;
    let m = args.len();
    let ivs = c.index_values@;
    let nrec = spec_nrec(i, args, m as int);
    if (exists|d: int|
        0 <= d < ivs.len() && #[trigger] spec_lift_twice(
            ivs[d],
            (j + 1) as usize,
            m as usize,
            nrec as usize,
            0,
        ) is None) || (exists|l: int|
        0 <= l < m && spec_ind_head(args[l]) == Some(i) && #[trigger] spec_ih_type(
            np,
            m,
            j,
            l,
            spec_nrec(i, args, l),
            args[l],
        ) is None) || (exists|l: int|
        0 <= l < m && #[trigger] spec_lift((1 + j) as usize, l as usize, args[l]) is None) {
        None
    } else {
        let cargs = Seq::new(np, |p: int| Term::Var((nrec + m + j + 1 + (np - 1 - p)) as usize))
            + Seq::new(m, |l: int| Term::Var((nrec + (m - 1 - l)) as usize));
        let motive_args = Seq::new(
            ivs.len(),
            |d: int| spec_lift_twice(ivs[d], (j + 1) as usize, m as usize, nrec as usize, 0)->0,
        ).push(spec_apps(Term::Constr(i, j), cargs));
        let body = spec_apps(Term::Var((nrec + m + j) as usize), motive_args);
        let doms = Seq::new(m, |l: int| spec_lift((1 + j) as usize, l as usize, args[l])->0);
        Some(spec_pis(doms, spec_pis(spec_ih_types(i, np, j, args, m as int), body)))
    }
}

proof fn lemma_nrec_le(i: usize, args: Seq<Term>, l: int)
    ensures
        spec_nrec(i, args, l) <= if l < 0 {
            0
        } else {
            l
        },
    decreases l,
{
    if l > 0 {
        lemma_nrec_le(i, args, l - 1);
    }
}

proof fn lemma_pis_step(tele: Seq<Term>, h: int, body: Term)
    requires
        0 < h <= tele.len(),
    ensures
        spec_pis(tele.subrange(h - 1, tele.len() as int), body) == mk_pi(
            tele[h - 1],
            spec_pis(tele.subrange(h, tele.len() as int), body),
        ),
{
    assert(tele.subrange(h - 1, tele.len() as int).drop_first() =~= tele.subrange(
        h,
        tele.len() as int,
    ));
}

/// The type of the method for constructor `j` in the recursor of inductive
/// `i` (see `spec_method_type`); also `None` for constructors whose
/// parameter, argument or position counts reach a quarter of the range of
/// `usize`, where the de Bruijn arithmetic could overflow.
#[verifier::loop_isolation(false)]
#[verifier::rlimit(80)]
pub fn method_type_term(sig: &Sig, i: usize, j: usize) -> (r: Option<Term>)
    requires
        i < sig@.len(),
        j < sig@[i as int].constructors@.len(),
    ensures
        ({
            let c = sig@[i as int].constructors@[j as int];
            if sig@[i as int].params@.len() <= usize::MAX / 4 && c.args@.len() <= usize::MAX / 4
                && j <= usize::MAX / 4 {
                r == spec_method_type(sig@, i, j)
            } else {
                r is None
            }
        }),
{
    let ind = &sig[i];
    let c = &ind.constructors[j];
    let np = ind.params.len();
    let m = c.args.len();
    if np > usize::MAX / 4 || m > usize::MAX / 4 || j > usize::MAX / 4 {
        return None;
    }
    let ghost args = c.args@;
    let ghost ivs = c.index_values@;
    let mask = first_order_rec_mask(sig, i, j);
    let mut nrec: usize = 0;
    let mut l: usize = 0;
    while l < m
        invariant
            l <= m,
            nrec == spec_nrec(i, args, l as int),
            mask@.len() == m,
        decreases m - l,
    {
        proof {
            lemma_nrec_le(i, args, l as int);
        }
        if mask[l] {
            nrec = nrec + 1;
        }
        l = l + 1;
    }
    proof {
        lemma_nrec_le(i, args, m as int);
    }
    let ghost cargs_spec = Seq::new(
        np as nat,
        |p: int| Term::Var((nrec + m + j + 1 + (np - 1 - p)) as usize),
    ) + Seq::new(m as nat, |l: int| Term::Var((nrec + (m - 1 - l)) as usize));
    let mut cargs_terms: Vec<Term> = Vec::new();
    let mut p: usize = 0;
    while p < np
        invariant
            p <= np,
            cargs_terms@ == cargs_spec.subrange(0, p as int),
        decreases np - p,
    {
        cargs_terms.push(Term::Var(nrec + m + j + 1 + (np - 1 - p)));
        p = p + 1;
        assert(cargs_terms@ =~= cargs_spec.subrange(0, p as int));
    }
    let mut l: usize = 0;
    while l < m
        invariant
            l <= m,
            cargs_terms@ == cargs_spec.subrange(0, np + l),
        decreases m - l,
    {
        cargs_terms.push(Term::Var(nrec + (m - 1 - l)));
        l = l + 1;
        assert(cargs_terms@ =~= cargs_spec.subrange(0, np + l));
    }
    assert(cargs_terms@ =~= cargs_spec);
    let cj_applied = apps(Term::Constr(i, j), cargs_terms.as_slice());
    let mut motive_args: Vec<Term> = Vec::new();
    let mut d: usize = 0;
    while d < c.index_values.len()
        invariant
            d <= ivs.len(),
            ivs == c.index_values@,
            forall|e: int|
                0 <= e < d ==> #[trigger] spec_lift_twice(
                    ivs[e],
                    (j + 1) as usize,
                    m,
                    nrec,
                    0,
                ) is Some,
            motive_args@ == Seq::new(
                d as nat,
                |e: int| spec_lift_twice(ivs[e], (j + 1) as usize, m, nrec, 0)->0,
            ),
        decreases ivs.len() - d,
    {
        let inner = match lift(j + 1, m, &c.index_values[d]) {
            Some(t) => t,
            None => {
                assert(spec_lift_twice(ivs[d as int], (j + 1) as usize, m, nrec, 0) is None);
                return None;
            },
        };
        let outer = match lift(nrec, 0, &inner) {
            Some(t) => t,
            None => {
                assert(spec_lift_twice(ivs[d as int], (j + 1) as usize, m, nrec, 0) is None);
                return None;
            },
        };
        motive_args.push(outer);
        d = d + 1;
        assert(motive_args@ =~= Seq::new(
            d as nat,
            |e: int| spec_lift_twice(ivs[e], (j + 1) as usize, m, nrec, 0)->0,
        ));
    }
    motive_args.push(cj_applied);
    let body = apps(Term::Var(nrec + m + j), motive_args.as_slice());
    let mut ih_types: Vec<Term> = Vec::new();
    let mut q: usize = 0;
    let mut l: usize = 0;
    while l < m
        invariant
            l <= m,
            q == spec_nrec(i, args, l as int),
            q <= l,
            mask@.len() == m,
            args == c.args@,
            nrec == spec_nrec(i, args, m as int),
            ih_types@ == spec_ih_types(i, np as nat, j, args, l as int),
            forall|t: int|
                0 <= t < l && spec_ind_head(args[t]) == Some(i) ==> #[trigger] spec_ih_type(
                    np as nat,
                    m as nat,
                    j,
                    t,
                    spec_nrec(i, args, t),
                    args[t],
                ) is Some,
        decreases m - l,
    {
        proof {
            lemma_nrec_le(i, args, l as int);
        }
        if mask[l] {
            let motive_at = q + m + j;
            let arg_ref = q + (m - 1 - l);
            let idx_spine = spine_args(&c.args[l]);
            if idx_spine.len() < np {
                assert(spec_ih_type(np as nat, m as nat, j, l as int, q as nat, args[l as int]) is None);
                return None;
            }
            let ghost sp = idx_spine@;
            let mut ih_args: Vec<Term> = Vec::new();
            let mut s: usize = np;
            while s < idx_spine.len()
                invariant
                    np <= s <= sp.len(),
                    sp == idx_spine@,
                    forall|t: int|
                        np <= t < s ==> #[trigger] spec_lift_twice(
                            sp[t],
                            (q + m - l) as usize,
                            0,
                            (j + 1) as usize,
                            (q + m) as usize,
                        ) is Some,
                    ih_args@ == Seq::new(
                        (s - np) as nat,
                        |t: int|
                            spec_lift_twice(
                                sp[t + np],
                                (q + m - l) as usize,
                                0,
                                (j + 1) as usize,
                                (q + m) as usize,
                            )->0,
                    ),
                decreases sp.len() - s,
            {
                let inner = match lift(q + m - l, 0, &idx_spine[s]) {
                    Some(t) => t,
                    None => {
                        assert(spec_lift_twice(
                            sp[s as int],
                            (q + m - l) as usize,
                            0,
                            (j + 1) as usize,
                            (q + m) as usize,
                        ) is None);
                        return None;
                    },
                };
                let outer = match lift(j + 1, q + m, &inner) {
                    Some(t) => t,
                    None => {
                        assert(spec_lift_twice(
                            sp[s as int],
                            (q + m - l) as usize,
                            0,
                            (j + 1) as usize,
                            (q + m) as usize,
                        ) is None);
                        return None;
                    },
                };
                ih_args.push(outer);
                s = s + 1;
                assert(ih_args@ =~= Seq::new(
                    (s - np) as nat,
                    |t: int|
                        spec_lift_twice(
                            sp[t + np],
                            (q + m - l) as usize,
                            0,
                            (j + 1) as usize,
                            (q + m) as usize,
                        )->0,
                ));
            }
            ih_args.push(Term::Var(arg_ref));
            ih_types.push(apps(Term::Var(motive_at), ih_args.as_slice()));
            q = q + 1;
        }
        l = l + 1;
    }
    let ghost ihs = ih_types@;
    let mut out = body;
    let mut h = ih_types.len();
    while h > 0
        invariant
            h <= ihs.len(),
            ihs == ih_types@,
            out == spec_pis(ihs.subrange(h as int, ihs.len() as int), body),
        decreases h,
    {
        proof {
            lemma_pis_step(ihs, h as int, body);
        }
        h = h - 1;
        out = Term::Pi(Box::new(ih_types[h].clone()), Box::new(out));
    }
    assert(ihs.subrange(0, ihs.len() as int) =~= ihs);
    let ghost inner_ty = out;
    let ghost doms = Seq::new(m as nat, |t: int| spec_lift((1 + j) as usize, t as usize, args[t])->0);
    let mut l = m;
    while l > 0
        invariant
            l <= m,
            m == c.args@.len(),
            args == c.args@,
            forall|t: int| l <= t < m ==> #[trigger] spec_lift((1 + j) as usize, t as usize, args[t]) is Some,
            out == spec_pis(doms.subrange(l as int, m as int), inner_ty),
        decreases l,
    {
        proof {
            lemma_pis_step(doms, l as int, inner_ty);
        }
        l = l - 1;
        let dom = match lift(1 + j, l, &c.args[l]) {
            Some(t) => t,
            None => {
                assert(spec_lift((1 + j) as usize, l as usize, args[l as int]) is None);
                return None;
            },
        };
        out = Term::Pi(Box::new(dom), Box::new(out));
    }
    assert(doms.subrange(0, m as int) =~= doms);
    Some(out)
}

/// Whether the de Bruijn arithmetic of the recursor of inductive `i` stays
/// within a quarter of the range of `usize`.
pub open spec fn spec_rec_sizes_ok(sig: Seq<Inductive>, i: usize) -> bool {
    let ind = sig[i as int];
    &&& ind.params@.len() <= usize::MAX / 4
    &&& ind.constructors@.len() <= usize::MAX / 4
    &&& ind.indices@.len() <= usize::MAX / 4
    &&& forall|j: int|
        0 <= j < ind.constructors@.len() ==> (#[trigger] ind.constructors@[j]).args@.len()
            <= usize::MAX / 4
}

/// The type of the recursor of inductive `i` eliminating into the sort of
/// level `t`: `Π params. Π (motive : Π indices. Ind(i) params indices → sort).
/// Π methods. Π indices. Π (major : Ind(i) params indices). motive indices
/// major`. `None` where a method type is `None` or lifting an index
/// leaves the range of `usize`.
pub open spec fn spec_rec_type(sig: Seq<Inductive>, i: usize, t: u32) -> Option<Term> {
    let ind = sig[i as int];
    let np = ind.params@.len();
    let k = ind.constructors@.len();
    let ni = ind.indices@.len();
    if (exists|d: int|
        0 <= d < ni && #[trigger] spec_lift((1 + k) as usize, d as usize, ind.indices@[d])
            is None) || (exists|j: int|
        0 <= j < k && #[trigger] spec_method_type(sig, i, j as usize) is None) {
        None
    } else {
        let motive_inner = Seq::new(np, |p: int| Term::Var((ni + (np - 1 - p)) as usize))
            + Seq::new(ni, |d: int| Term::Var((ni - 1 - d) as usize));
        let motive_type = spec_pis(
            ind.indices@,
            mk_pi(spec_apps(Term::Ind(i), motive_inner), spec_sort_term(t)),
        );
        let methods = Seq::new(k, |j: int| spec_method_type(sig, i, j as usize)->0);
        let rec_indices = Seq::new(
            ni,
            |d: int| spec_lift((1 + k) as usize, d as usize, ind.indices@[d])->0,
        );
        let major_args = Seq::new(np, |p: int| Term::Var((ni + (1 + k) + (np - 1 - p)) as usize))
            + Seq::new(ni, |d: int| Term::Var((ni - 1 - d) as usize));
        let major_type = spec_apps(Term::Ind(i), major_args);
        let result = spec_apps(
            Term::Var((ni + k + 1) as usize),
            Seq::new(ni, |d: int| Term::Var((ni - d) as usize)).push(Term::Var(0)),
        );
        Some(
            spec_pis(
                ind.params@ + seq![motive_type] + methods + rec_indices + seq![major_type],
                result,
            ),
        )
    }
}

/// The type of the recursor of inductive `i` eliminating into the sort of
/// level `t` (see `spec_rec_type`); `None` too where the counts of the
/// inductive reach a quarter of the range of `usize`.
#[verifier::loop_isolation(false)]
#[verifier::rlimit(80)]
pub fn rec_type_term(sig: &Sig, i: usize, t: u32) -> (r: Option<Term>)
    requires
        i < sig@.len(),
    ensures
        spec_rec_sizes_ok(sig@, i) ==> r == spec_rec_type(sig@, i, t),
        !spec_rec_sizes_ok(sig@, i) ==> r is None,
{
    let ind = &sig[i];
    let np = ind.params.len();
    let k = ind.constructors.len();
    let ni = ind.indices.len();
    if np > usize::MAX / 4 || k > usize::MAX / 4 || ni > usize::MAX / 4 {
        return None;
    }
    let ghost inner_spec = Seq::new(np as nat, |p: int| Term::Var((ni + (np - 1 - p)) as usize))
        + Seq::new(ni as nat, |d: int| Term::Var((ni - 1 - d) as usize));
    let mut motive_inner_args: Vec<Term> = Vec::new();
    let mut p: usize = 0;
    while p < np
        invariant
            p <= np,
            motive_inner_args@ == inner_spec.subrange(0, p as int),
        decreases np - p,
    {
        motive_inner_args.push(Term::Var(ni + (np - 1 - p)));
        p = p + 1;
        assert(motive_inner_args@ =~= inner_spec.subrange(0, p as int));
    }
    let mut d: usize = 0;
    while d < ni
        invariant
            d <= ni,
            motive_inner_args@ == inner_spec.subrange(0, np + d),
        decreases ni - d,
    {
        motive_inner_args.push(Term::Var(ni - 1 - d));
        d = d + 1;
        assert(motive_inner_args@ =~= inner_spec.subrange(0, np + d));
    }
    assert(motive_inner_args@ =~= inner_spec);
    let motive_codomain = Term::Pi(
        Box::new(apps(Term::Ind(i), motive_inner_args.as_slice())),
        Box::new(sort_term(t)),
    );
    let motive_type = pis(ind.indices.as_slice(), motive_codomain);
    let ghost idx = ind.indices@;
    let mut rec_indices: Vec<Term> = Vec::new();
    let mut d: usize = 0;
    while d < ni
        invariant
            d <= ni,
            ni == ind.indices@.len(),
            idx == ind.indices@,
            forall|e: int|
                0 <= e < d ==> #[trigger] spec_lift((1 + k) as usize, e as usize, idx[e]) is Some,
            rec_indices@ == Seq::new(
                d as nat,
                |e: int| spec_lift((1 + k) as usize, e as usize, idx[e])->0,
            ),
        decreases ni - d,
    {
        let lifted = match lift(1 + k, d, &ind.indices[d]) {
            Some(x) => x,
            None => {
                assert(spec_lift((1 + k) as usize, d as usize, idx[d as int]) is None);
                return None;
            },
        };
        rec_indices.push(lifted);
        d = d + 1;
        assert(rec_indices@ =~= Seq::new(
            d as nat,
            |e: int| spec_lift((1 + k) as usize, e as usize, idx[e])->0,
        ));
    }
    let ghost major_spec = Seq::new(
        np as nat,
        |p: int| Term::Var((ni + (1 + k) + (np - 1 - p)) as usize),
    ) + Seq::new(ni as nat, |d: int| Term::Var((ni - 1 - d) as usize));
    let mut major_args: Vec<Term> = Vec::new();
    let mut p: usize = 0;
    while p < np
        invariant
            p <= np,
            major_args@ == major_spec.subrange(0, p as int),
        decreases np - p,
    {
        major_args.push(Term::Var(ni + (1 + k) + (np - 1 - p)));
        p = p + 1;
        assert(major_args@ =~= major_spec.subrange(0, p as int));
    }
    let mut d: usize = 0;
    while d < ni
        invariant
            d <= ni,
            major_args@ == major_spec.subrange(0, np + d),
        decreases ni - d,
    {
        major_args.push(Term::Var(ni - 1 - d));
        d = d + 1;
        assert(major_args@ =~= major_spec.subrange(0, np + d));
    }
    assert(major_args@ =~= major_spec);
    let major_type = apps(Term::Ind(i), major_args.as_slice());
    let ghost res_spec = Seq::new(ni as nat, |d: int| Term::Var((ni - d) as usize));
    let mut result_args: Vec<Term> = Vec::new();
    let mut d: usize = 0;
    while d < ni
        invariant
            d <= ni,
            result_args@ == res_spec.subrange(0, d as int),
        decreases ni - d,
    {
        result_args.push(Term::Var(ni - d));
        d = d + 1;
        assert(result_args@ =~= res_spec.subrange(0, d as int));
    }
    assert(result_args@ =~= res_spec);
    result_args.push(Term::Var(0));
    let result = apps(Term::Var(ni + k + 1), result_args.as_slice());
    let mut tele = ind.params.clone();
    assert(tele@ =~= ind.params@);
    tele.push(motive_type);
    let ghost tele0 = tele@;
    let mut j: usize = 0;
    while j < k
        invariant
            j <= k,
            k == sig@[i as int].constructors@.len(),
            forall|e: int| 0 <= e < j ==> #[trigger] spec_method_type(sig@, i, e as usize) is Some,
            forall|e: int|
                0 <= e < j ==> (#[trigger] sig@[i as int].constructors@[e]).args@.len()
                    <= usize::MAX / 4,
            tele@ == tele0 + Seq::new(j as nat, |e: int| spec_method_type(sig@, i, e as usize)->0),
        decreases k - j,
    {
        let mt = match method_type_term(sig, i, j) {
            Some(x) => x,
            None => {
                proof {
                    if spec_rec_sizes_ok(sig@, i) {
                        let c = sig@[i as int].constructors@[j as int];
                        assert(c.args@.len() <= usize::MAX / 4);
                        assert(spec_method_type(sig@, i, (j as int) as usize) is None);
                        assert(spec_rec_type(sig@, i, t) is None);
                    }
                }
                return None;
            },
        };
        tele.push(mt);
        j = j + 1;
        assert(tele@ =~= tele0 + Seq::new(
            j as nat,
            |e: int| spec_method_type(sig@, i, e as usize)->0,
        ));
    }
    let ghost tele1 = tele@;
    tele.append(&mut rec_indices);
    tele.push(major_type);
    proof {
        assert(tele@ =~= ind.params@ + seq![motive_type] + Seq::new(
            k as nat,
            |e: int| spec_method_type(sig@, i, e as usize)->0,
        ) + Seq::new(ni as nat, |e: int| spec_lift((1 + k) as usize, e as usize, idx[e])->0)
            + seq![major_type]);
    }
    Some(pis(tele.as_slice(), result))
}

} // verus!
