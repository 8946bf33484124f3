use std::rc::Rc;
use vstd::prelude::*;

use crate::kernel::{
    check_fuel, infer_sort, infer_sort_at, lemma_mctx, mctx, need, spec_bind, spec_check,
    spec_empty_ctx, spec_infer, spec_infer_sort, spec_level_of_sort, spec_need, Context,
    KernelError, MCtx,
};
use crate::term::{
    collect_ind_refs, ind_head, occurs_ind, spec_ind_head, spec_occurs_ind, spec_refs,
    mk_pi, spec_pis, spec_sort_term, spec_spine_args, spec_strictly_positive, spine_args,
    strictly_positive, Constructor, Inductive, Sig, Term,
};
use crate::formers::spec_ind_type;
use crate::value::{
    eval_fuel, lemma_mvals_push, lemma_mvals_subrange, mvals, slice_env, spec_eval, MValue, FUEL,
};

verus! {

/// The inductives (below `n`) mentioned by a sequence of terms.
pub open spec fn spec_refs_of_terms(ts: Seq<Term>, n: nat) -> Set<nat>
    decreases ts.len(),
{
    if ts.len() == 0 {
        Set::empty()
    } else {
        spec_refs_of_terms(ts.drop_last(), n).union(spec_refs(ts.last(), n))
    }
}

/// The inductives (below `n`) mentioned by the argument and index-value
/// types of a sequence of constructors.
pub open spec fn spec_refs_of_ctors(cs: Seq<Constructor>, n: nat) -> Set<nat>
    decreases cs.len(),
{
    if cs.len() == 0 {
        Set::empty()
    } else {
        spec_refs_of_ctors(cs.drop_last(), n).union(
            spec_refs_of_terms(cs.last().args@, n),
        ).union(spec_refs_of_terms(cs.last().index_values@, n))
    }
}

/// The inductives that inductive `a` of `sig` mentions anywhere in its
/// declaration.
pub open spec fn spec_mentions(sig: Sig, a: int) -> Set<nat> {
    let ind = sig@[a];
    let n = sig@.len();
    spec_refs_of_terms(ind.params@, n).union(spec_refs_of_terms(ind.indices@, n)).union(
        spec_refs_of_ctors(ind.constructors@, n),
    )
}

/// Inductive `k` reaches inductive `target` by at most `steps` mentions.
pub open spec fn spec_reaches(sig: Sig, steps: nat, k: int, target: int) -> bool
    decreases steps,
{
    k == target || (steps > 0 && exists|m: int|
        0 <= m < sig@.len() && #[trigger] spec_mentions(sig, k).contains(m as nat)
            && spec_reaches(sig, (steps - 1) as nat, m, target))
}

/// Inductive `k` depends, directly or through others, on `target` (or is
/// `target` itself).
pub open spec fn spec_is_ancestor(sig: Sig, k: int, target: int) -> bool {
    exists|steps: nat| spec_reaches(sig, steps, k, target)
}

/// The conditions that the signature checker imposes on argument `l` of
/// constructor `j` of inductive `i`: every inductive that depends on `i`
/// (directly or through others, `i` included) occurs strictly positively
/// and only as the head of the argument's codomain, and a recursive
/// occurrence of `i` is applied to the parameters unchanged.
pub open spec fn spec_ctor_arg_ok(sig: Sig, i: int, j: int, l: int) -> bool {
    let ind = sig@[i];
    let a = ind.constructors@[j].args@[l];
    let np = ind.params@.len();
    &&& forall|k: int|
        0 <= k < sig@.len() && spec_is_ancestor(sig, k, i) ==> {
            &&& spec_strictly_positive(k as usize, a)
            &&& spec_occurs_ind(k as usize, a) ==> spec_ind_head(a) == Some(k as usize)
        }
    &&& spec_ind_head(a) == Some(i as usize) ==> {
        &&& spec_spine_args(a).len() >= np
        &&& forall|p: int|
            0 <= p < np ==> #[trigger] spec_spine_args(a)[p] == Term::Var(
                (np + l - 1 - p) as usize,
            )
    }
}

/// The structural conditions on constructor `j` of inductive `i`.
pub open spec fn spec_ctor_ok(sig: Sig, i: int, j: int) -> bool {
    let c = sig@[i].constructors@[j];
    &&& c.index_values@.len() == sig@[i].indices@.len()
    &&& forall|l: int| 0 <= l < c.args@.len() ==> spec_ctor_arg_ok(sig, i, j, l)
}

/// The structural conditions on inductive `i`.
pub open spec fn spec_inductive_ok(sig: Sig, i: int) -> bool {
    forall|j: int| 0 <= j < sig@[i].constructors@.len() ==> spec_ctor_ok(sig, i, j)
}

fn collect_terms_refs(ts: &Vec<Term>, row: &mut Vec<bool>)
    ensures
        final(row)@.len() == old(row)@.len(),
        forall|b: int|
            0 <= b < old(row)@.len() ==> (#[trigger] final(row)@[b] == (old(row)@[b]
                || spec_refs_of_terms(ts@, old(row)@.len() as nat).contains(b as nat))),
{
    let ghost n = row@.len() as nat;
    let ghost orig = row@;
    let mut q: usize = 0;
    while q < ts.len()
        invariant
            q <= ts@.len(),
            row@.len() == n,
            orig.len() == n,
            forall|b: int|
                0 <= b < n ==> (#[trigger] row@[b] == (orig[b] || spec_refs_of_terms(
                    ts@.subrange(0, q as int),
                    n,
                ).contains(b as nat))),
        decreases ts@.len() - q,
    {
        collect_ind_refs(&ts[q], row);
        proof {
            assert(ts@.subrange(0, q as int + 1).drop_last() =~= ts@.subrange(0, q as int));
        }
        q = q + 1;
    }
    assert(ts@.subrange(0, ts@.len() as int) =~= ts@);
}

fn collect_ctors_refs(cs: &Vec<Constructor>, row: &mut Vec<bool>)
    ensures
        final(row)@.len() == old(row)@.len(),
        forall|b: int|
            0 <= b < old(row)@.len() ==> (#[trigger] final(row)@[b] == (old(row)@[b]
                || spec_refs_of_ctors(cs@, old(row)@.len() as nat).contains(b as nat))),
{
    let ghost n = row@.len() as nat;
    let ghost orig = row@;
    let mut q: usize = 0;
    while q < cs.len()
        invariant
            q <= cs@.len(),
            row@.len() == n,
            orig.len() == n,
            forall|b: int|
                0 <= b < n ==> (#[trigger] row@[b] == (orig[b] || spec_refs_of_ctors(
                    cs@.subrange(0, q as int),
                    n,
                ).contains(b as nat))),
        decreases cs@.len() - q,
    {
        collect_terms_refs(&cs[q].args, row);
        collect_terms_refs(&cs[q].index_values, row);
        proof {
            assert(cs@.subrange(0, q as int + 1).drop_last() =~= cs@.subrange(0, q as int));
        }
        q = q + 1;
    }
    assert(cs@.subrange(0, cs@.len() as int) =~= cs@);
}

/// The row of the dependency matrix for inductive `a`.
fn mention_row(sig: &Sig, a: usize) -> (r: Vec<bool>)
    requires
        a < sig@.len(),
    ensures
        r@.len() == sig@.len(),
        forall|b: int| 0 <= b < sig@.len() ==> #[trigger] r@[b] == spec_mentions(*sig, a as int).contains(b as nat),
{
    let len = sig.len();
    let mut row: Vec<bool> = Vec::new();
    let mut q: usize = 0;
    while q < len
        invariant
            q <= len,
            len == sig@.len(),
            row@.len() == q,
            forall|b: int| 0 <= b < q ==> !#[trigger] row@[b],
        decreases len - q,
    {
        row.push(false);
        q = q + 1;
    }
    let ind = &sig[a];
    collect_terms_refs(&ind.params, &mut row);
    collect_terms_refs(&ind.indices, &mut row);
    collect_ctors_refs(&ind.constructors, &mut row);
    row
}

pub open spec fn count_true(s: Seq<bool>) -> nat
    decreases s.len(),
{
    if s.len() == 0 {
        0
    } else {
        count_true(s.drop_last()) + if s.last() {
            1nat
        } else {
            0nat
        }
    }
}

proof fn lemma_count_true_update(s: Seq<bool>, k: int)
    requires
        0 <= k < s.len(),
        !s[k],
    ensures
        count_true(s.update(k, true)) == count_true(s) + 1,
    decreases s.len(),
{
    if k == s.len() - 1 {
        assert(s.update(k, true).drop_last() =~= s.drop_last());
    } else {
        lemma_count_true_update(s.drop_last(), k);
        assert(s.update(k, true).drop_last() =~= s.drop_last().update(k, true));
    }
}

proof fn lemma_count_true_le(s: Seq<bool>)
    ensures
        count_true(s) <= s.len(),
    decreases s.len(),
{
    if s.len() > 0 {
        lemma_count_true_le(s.drop_last());
    }
}

/// Every inductive that reaches the target in `steps` steps is marked,
/// when the marked set holds the target and is closed under mentions.
proof fn lemma_closed_contains_reachers(sig: Sig, anc: Seq<bool>, target: int, steps: nat, k: int)
    requires
        anc.len() == sig@.len(),
        0 <= target < sig@.len(),
        0 <= k < sig@.len(),
        anc[target],
        forall|x: int, y: int|
            0 <= x < sig@.len() && 0 <= y < sig@.len() && anc[x] && #[trigger] spec_mentions(
                sig,
                y,
            ).contains(x as nat) ==> anc[y],
        spec_reaches(sig, steps, k, target),
    ensures
        anc[k],
    decreases steps,
{
    if k != target {
        let m = choose|m: int|
            0 <= m < sig@.len() && #[trigger] spec_mentions(sig, k).contains(m as nat)
                && spec_reaches(sig, (steps - 1) as nat, m, target);
        lemma_closed_contains_reachers(sig, anc, target, (steps - 1) as nat, m);
        assert(anc[m]);
        assert(spec_mentions(sig, k).contains(m as nat));
    }
}

pub open spec fn deref_sig(sig: &Rc<Sig>) -> Sig {
    **sig
}

/// Marks exactly the inductives from which `target` is reachable through
/// the mention relation (including `target` itself).
#[verifier::rlimit(50)]
pub fn ancestors_of(sig: &Rc<Sig>, target: usize) -> (r: Vec<bool>)
    requires
        target < sig@.len(),
    ensures
        r@.len() == sig@.len(),
        forall|k: int|
            0 <= k < sig@.len() ==> (#[trigger] r@[k] <==> spec_is_ancestor(
                **sig,
                k,
                target as int,
            )),
{
    let len = sig.len();
    let ghost s: Sig = deref_sig(sig);
    let mut refs: Vec<Vec<bool>> = Vec::new();
    let mut a: usize = 0;
    while a < len
        invariant
            a <= len,
            len == s@.len(),
            s == **sig,
            refs@.len() == a,
            forall|x: int, y: int|
                0 <= x < a && 0 <= y < len ==> (#[trigger] refs@[x]@[y]
                    == spec_mentions(s, x).contains(y as nat)),
            forall|x: int| 0 <= x < a ==> (#[trigger] refs@[x]@.len()) == len,
        decreases len - a,
    {
        let row = mention_row(sig, a);
        refs.push(row);
        a = a + 1;
    }
    let mut anc: Vec<bool> = Vec::new();
    let mut q: usize = 0;
    while q < len
        invariant
            q <= len,
            anc@.len() == q,
            forall|b: int| 0 <= b < q ==> !#[trigger] anc@[b],
        decreases len - q,
    {
        anc.push(false);
        q = q + 1;
    }
    proof {
        lemma_count_true_update(anc@, target as int);
    }
    anc.set(target, true);
    assert(spec_reaches(s, 0, target as int, target as int));
    let mut stack: Vec<usize> = Vec::new();
    stack.push(target);
    proof {
        assert(stack@[0] == target);
        assert forall|b: int| 0 <= b < len && #[trigger] anc@[b] implies b == target as int by {}
        assert(stack@.contains(target));
    }
    loop
        invariant
            len == s@.len(),
            s == **sig,
            target < len,
            refs@.len() == len,
            forall|x: int, y: int|
                0 <= x < len && 0 <= y < len ==> (#[trigger] refs@[x]@[y]
                    == spec_mentions(s, x).contains(y as nat)),
            forall|x: int| 0 <= x < len ==> (#[trigger] refs@[x]@.len()) == len,
            anc@.len() == len,
            anc@[target as int],
            forall|i: int| 0 <= i < stack@.len() ==> #[trigger] stack@[i] < len,
            forall|i: int| 0 <= i < stack@.len() ==> anc@[#[trigger] stack@[i] as int],
            forall|i: int, j: int|
                0 <= i < j < stack@.len() ==> #[trigger] stack@[i] != #[trigger] stack@[j],
            forall|k: int|
                0 <= k < len && #[trigger] anc@[k] ==> spec_is_ancestor(s, k, target as int),
            forall|x: int, k: int|
                0 <= x < len && 0 <= k < len && anc@[x] && !stack@.contains(x as usize)
                    && #[trigger] spec_mentions(s, k).contains(x as nat) ==> anc@[k],
        ensures
            stack@.len() == 0,
            anc@.len() == len,
            anc@[target as int],
            forall|k: int|
                0 <= k < len && #[trigger] anc@[k] ==> spec_is_ancestor(s, k, target as int),
            forall|x: int, k: int|
                0 <= x < len && 0 <= k < len && anc@[x] && #[trigger] spec_mentions(s, k).contains(
                    x as nat,
                ) ==> anc@[k],
        decreases len - count_true(anc@), stack@.len(),
    {
        proof {
            lemma_count_true_le(anc@);
        }
        let ghost before = stack@;
        let x = match stack.pop() {
            Some(x) => x,
            None => {
                assert forall|x: int, k: int|
                    0 <= x < len && 0 <= k < len && anc@[x] && #[trigger] spec_mentions(s, k).contains(
                        x as nat,
                    ) implies anc@[k] by {
                    assert(!stack@.contains(x as usize));
                }
                break ;
            },
        };
        let ghost stack_after_pop = stack@;
        let ghost count_after_pop = count_true(anc@);
        assert(!stack@.contains(x)) by {
            if stack@.contains(x) {
                let i = choose|i: int| 0 <= i < stack@.len() && stack@[i] == x;
                assert(before[i] == x);
                assert(before[before.len() - 1] == x);
            }
        }
        proof {
            assert forall|y: int|
                0 <= y < len && y != x as int && !stack@.contains(y as usize) implies !#[trigger] before.contains(
                y as usize,
            ) by {
                if before.contains(y as usize) {
                    let i = choose|i: int| 0 <= i < before.len() && before[i] == y as usize;
                    if i < before.len() - 1 {
                        assert(stack@[i] == y as usize);
                    }
                }
            }
        }
        let ghost xs: int = x as int;
        let ghost x_steps: nat = choose|st: nat| spec_reaches(s, st, xs, target as int);
        assert(spec_reaches(s, x_steps, xs, target as int));
        let mut k: usize = 0;
        while k < len
            invariant
                len == s@.len(),
                s == **sig,
                target < len,
                x < len,
                xs == x as int,
                refs@.len() == len,
                forall|x: int, y: int|
                    0 <= x < len && 0 <= y < len ==> (#[trigger] refs@[x]@[y]
                        == spec_mentions(s, x).contains(y as nat)),
                forall|x: int| 0 <= x < len ==> (#[trigger] refs@[x]@.len()) == len,
                k <= len,
                anc@.len() == len,
                anc@[target as int],
                anc@[xs],
                spec_reaches(s, x_steps, xs, target as int),
                !stack@.contains(x),
                stack@.len() >= stack_after_pop.len(),
                count_true(anc@) == count_after_pop + (stack@.len() - stack_after_pop.len()),
                forall|i: int| 0 <= i < stack@.len() ==> #[trigger] stack@[i] < len,
                forall|i: int| 0 <= i < stack@.len() ==> anc@[#[trigger] stack@[i] as int],
                forall|i: int, j: int|
                    0 <= i < j < stack@.len() ==> #[trigger] stack@[i] != #[trigger] stack@[j],
                forall|k: int|
                    0 <= k < len && #[trigger] anc@[k] ==> spec_is_ancestor(s, k, target as int),
                forall|y: int, k: int|
                    0 <= y < len && 0 <= k < len && y != xs && anc@[y] && !stack@.contains(
                        y as usize,
                    ) && #[trigger] spec_mentions(s, k).contains(y as nat) ==> anc@[k],
                forall|k2: int|
                    0 <= k2 < k && spec_mentions(s, k2).contains(xs as nat) ==> #[trigger] anc@[k2],
            decreases len - k,
        {
            if refs[k][x] && !anc[k] {
                proof {
                    lemma_count_true_update(anc@, k as int);
                    assert(spec_mentions(s, k as int).contains(x as nat));
                    assert(spec_reaches(s, x_steps + 1, k as int, target as int));
                }
                let ghost old_anc = anc@;
                let ghost old_stack = stack@;
                anc.set(k, true);
                stack.push(k);
                proof {
                    assert(stack@[stack@.len() - 1] == k);
                    assert forall|y: int, k2: int|
                        0 <= y < len && 0 <= k2 < len && y != xs && anc@[y] && !stack@.contains(
                            y as usize,
                        ) && #[trigger] spec_mentions(s, k2).contains(y as nat) implies anc@[k2] by {
                        if y != k as int {
                            assert(old_anc[y]);
                            if old_stack.contains(y as usize) {
                                let i = choose|i: int|
                                    0 <= i < old_stack.len() && old_stack[i] == y as usize;
                                assert(stack@[i] == y as usize);
                            }
                        }
                    }
                }
            }
            k = k + 1;
        }
        proof {
            lemma_count_true_le(anc@);
        }
    }
    proof {
        assert forall|k: int| 0 <= k < len implies (#[trigger] anc@[k] <==> spec_is_ancestor(
            s,
            k,
            target as int,
        )) by {
            if spec_is_ancestor(s, k, target as int) {
                let st = choose|st: nat| spec_reaches(s, st, k, target as int);
                lemma_closed_contains_reachers(s, anc@, target as int, st, k);
            }
        }
    }
    anc
}

/// Binding the types `ts[p..]` in turn: each must be a type, and becomes
/// the type of the next variable.
pub open spec fn spec_bind_types(fuel: nat, c: MCtx, ts: Seq<Term>, p: int) -> Result<
    MCtx,
    KernelError,
>
    decreases ts.len() - p,
{
    if p < 0 || p >= ts.len() {
        Ok(c)
    } else {
        match spec_infer_sort(fuel, c, ts[p]) {
            Err(e) => Err(e),
            Ok(_) => match spec_eval(fuel, c.sig, c.env, ts[p]) {
                None => Err(KernelError::Malformed),
                Some(v) => match spec_bind(c, v) {
                    None => Err(KernelError::Malformed),
                    Some(ext) => spec_bind_types(fuel, ext, ts, p + 1),
                },
            },
        }
    }
}

/// The positivity verdict on a constructor argument `a` of constructor `j`
/// of inductive `i`, for the inductives `k..` in order: an ancestor of `i`
/// must occur strictly positively, and only as the head of `a`.
pub open spec fn spec_positivity_from(sig: Sig, i: int, j: int, a: Term, k: int) -> Result<
    (),
    KernelError,
>
    decreases sig@.len() - k,
{
    if k < 0 || k >= sig@.len() {
        Ok(())
    } else if spec_is_ancestor(sig, k, i) && !spec_strictly_positive(k as usize, a) {
        Err(KernelError::NotStrictlyPositive(i as usize, j as usize, k as usize))
    } else if spec_is_ancestor(sig, k, i) && spec_occurs_ind(k as usize, a) && spec_ind_head(a)
        != Some(k as usize) {
        Err(KernelError::NestedRecursion(i as usize, j as usize, k as usize))
    } else {
        spec_positivity_from(sig, i, j, a, k + 1)
    }
}

/// The verdict on the leading arguments `spine[q..np]` of a recursive
/// occurrence, in a context of `level` variables: each must be the
/// matching parameter.
pub open spec fn spec_uniform_from(
    spine: Seq<Term>,
    np: int,
    level: int,
    i: int,
    j: int,
    q: int,
) -> Result<(), KernelError>
    decreases np - q,
{
    if q < 0 || q >= np {
        Ok(())
    } else if spine[q] != Term::Var((level - 1 - q) as usize) {
        Err(KernelError::NonUniformParam(i as usize, j as usize, q as usize))
    } else {
        spec_uniform_from(spine, np, level, i, j, q + 1)
    }
}

/// The verdict on a recursive occurrence of `i` as argument `a`: it must
/// be applied to at least the parameters, each unchanged.
pub open spec fn spec_recursive_ok(sig: Sig, i: int, j: int, a: Term, level: int) -> Result<
    (),
    KernelError,
> {
    let np = sig@[i].params@.len() as int;
    if spec_ind_head(a) == Some(i as usize) {
        if spec_spine_args(a).len() < np {
            Err(KernelError::ParamsNotApplied(i as usize, j as usize))
        } else {
            spec_uniform_from(spec_spine_args(a), np, level, i, j, 0)
        }
    } else {
        Ok(())
    }
}

/// Checking argument `a` of constructor `j` of inductive `i` in context
/// `c`: it must be a type of a sort no larger than the inductive's, pass
/// the positivity and uniformity checks, and is then bound.
pub open spec fn spec_check_arg(fuel: nat, sig: Sig, i: int, j: int, c: MCtx, a: Term) -> Result<
    MCtx,
    KernelError,
> {
    match spec_infer_sort(fuel, c, a) {
        Err(e) => Err(e),
        Ok(s) => if s > sig@[i].sort {
            Err(KernelError::ArgumentSortTooLarge(i as usize, j as usize, s, sig@[i].sort))
        } else {
            match spec_positivity_from(sig, i, j, a, 0) {
                Err(e) => Err(e),
                Ok(_) => match spec_recursive_ok(sig, i, j, a, c.level as int) {
                    Err(e) => Err(e),
                    Ok(_) => match spec_eval(fuel, c.sig, c.env, a) {
                        None => Err(KernelError::Malformed),
                        Some(av) => match spec_bind(c, av) {
                            None => Err(KernelError::Malformed),
                            Some(ext) => Ok(ext),
                        },
                    },
                },
            }
        },
    }
}

/// Law: a constructor argument passes only if its sort level is at most
/// the inductive's sort; one whose sort level is larger is refused with
/// that level and the inductive's sort.
pub proof fn lemma_check_arg_sort(fuel: nat, sig: Sig, i: int, j: int, c: MCtx, a: Term)
    ensures
        spec_check_arg(fuel, sig, i, j, c, a) is Ok ==> (spec_infer_sort(fuel, c, a) matches Ok(
            s,
        ) && s <= sig@[i].sort),
        forall|s: u32|
            spec_infer_sort(fuel, c, a) == Ok::<u32, KernelError>(s) && s > sig@[i].sort
                ==> #[trigger] spec_check_arg(fuel, sig, i, j, c, a) == Err::<MCtx, KernelError>(
                KernelError::ArgumentSortTooLarge(i as usize, j as usize, s, sig@[i].sort),
            ),
{
}

/// Checking the arguments `args[l..]` of constructor `j` of inductive `i`
/// in turn, starting in context `c`.
pub open spec fn spec_check_args(
    fuel: nat,
    sig: Sig,
    i: int,
    j: int,
    c: MCtx,
    args: Seq<Term>,
    l: int,
) -> Result<MCtx, KernelError>
    decreases args.len() - l,
{
    if l < 0 || l >= args.len() {
        Ok(c)
    } else {
        match spec_check_arg(fuel, sig, i, j, c, args[l]) {
            Err(e) => Err(e),
            Ok(ext) => spec_check_args(fuel, sig, i, j, ext, args, l + 1),
        }
    }
}

/// Checking the index values `ivs[d..]` in context `c` against the index
/// types, each evaluated in `ienv` (the parameters and the earlier index
/// values).
pub open spec fn spec_check_index_values(
    fuel: nat,
    c: MCtx,
    indices: Seq<Term>,
    ivs: Seq<Term>,
    ienv: Seq<MValue>,
    d: int,
) -> Result<(), KernelError>
    decreases indices.len() - d,
{
    if d < 0 || d >= indices.len() {
        Ok(())
    } else {
        match spec_eval(fuel, c.sig, ienv, indices[d]) {
            None => Err(KernelError::Malformed),
            Some(expected) => match spec_check(fuel, c, ivs[d], expected) {
                Err(e) => Err(e),
                Ok(_) => match spec_eval(fuel, c.sig, c.env, ivs[d]) {
                    None => Err(KernelError::Malformed),
                    Some(iv) => spec_check_index_values(
                        fuel,
                        c,
                        indices,
                        ivs,
                        ienv.push(iv),
                        d + 1,
                    ),
                },
            },
        }
    }
}

/// Checking constructor `j` of inductive `i`, with the parameters bound
/// in `c`.
pub open spec fn spec_check_ctor(fuel: nat, sig: Sig, i: int, j: int, c: MCtx) -> Result<
    (),
    KernelError,
> {
    let ind = sig@[i];
    let con = ind.constructors@[j];
    if con.index_values@.len() != ind.indices@.len() {
        Err(KernelError::IndexArityMismatch(i as usize, j as usize))
    } else {
        match spec_check_args(fuel, sig, i, j, c, con.args@, 0) {
            Err(e) => Err(e),
            Ok(cc) => spec_check_index_values(
                fuel,
                cc,
                ind.indices@,
                con.index_values@,
                cc.env.subrange(0, ind.params@.len() as int),
                0,
            ),
        }
    }
}

/// Law: a constructor whose index values are not one per index of its
/// inductive is refused with an index arity error.
pub proof fn lemma_check_ctor_arity(fuel: nat, sig: Sig, i: int, j: int, c: MCtx)
    requires
        sig@[i].constructors@[j].index_values@.len() != sig@[i].indices@.len(),
    ensures
        spec_check_ctor(fuel, sig, i, j, c) == Err::<(), KernelError>(
            KernelError::IndexArityMismatch(i as usize, j as usize),
        ),
{
}

/// Checking the constructors `j..` of inductive `i` in turn.
pub open spec fn spec_check_ctors(fuel: nat, sig: Sig, i: int, c: MCtx, j: int) -> Result<
    (),
    KernelError,
>
    decreases sig@[i].constructors@.len() - j,
{
    if j < 0 || j >= sig@[i].constructors@.len() {
        Ok(())
    } else {
        match spec_check_ctor(fuel, sig, i, j, c) {
            Err(e) => Err(e),
            Ok(_) => spec_check_ctors(fuel, sig, i, c, j + 1),
        }
    }
}

/// The verdict on inductive `i`: its parameters and then its indices must
/// be types, in turn, and each constructor must pass, with the parameters
/// bound.
pub open spec fn spec_check_inductive(fuel: nat, sig: Sig, i: int) -> Result<(), KernelError> {
    let ind = sig@[i];
    match spec_bind_types(fuel, spec_empty_ctx(sig@, Seq::empty()), ind.params@, 0) {
        Err(e) => Err(e),
        Ok(c) => match spec_bind_types(fuel, c, ind.indices@, 0) {
            Err(e) => Err(e),
            Ok(_) => spec_check_ctors(fuel, sig, i, c, 0),
        },
    }
}

/// The verdict on the inductives `i..` of a signature, in order.
pub open spec fn spec_check_signature_from(fuel: nat, sig: Sig, i: int) -> Result<
    (),
    KernelError,
>
    decreases sig@.len() - i,
{
    if i < 0 || i >= sig@.len() {
        Ok(())
    } else {
        match spec_check_inductive(fuel, sig, i) {
            Err(e) => Err(e),
            Ok(_) => spec_check_signature_from(fuel, sig, i + 1),
        }
    }
}

/// Binds each of `ts` in turn, each of which must be a type.
#[verifier::loop_isolation(false)]
fn bind_types(fuel: u64, ctx: Context, ts: &Vec<Term>) -> (r: Result<Context, KernelError>)
    ensures
        match r {
            Ok(c) => spec_bind_types(fuel as nat, mctx(ctx), ts@, 0) == Ok::<MCtx, KernelError>(
                mctx(c),
            ) && c.sig == ctx.sig && c.level == ctx.level + ts@.len() && c.env@.len()
                == ctx.env@.len() + ts@.len(),
            Err(e) => spec_bind_types(fuel as nat, mctx(ctx), ts@, 0) == Err::<MCtx, KernelError>(
                e,
            ),
        },
{
    let ghost goal = spec_bind_types(fuel as nat, mctx(ctx), ts@, 0);
    let ghost sig0 = ctx.sig;
    let ghost level0 = ctx.level;
    let ghost len0 = ctx.env@.len();
    let mut c = ctx;
    let mut p: usize = 0;
    while p < ts.len()
        invariant
            p <= ts@.len(),
            spec_bind_types(fuel as nat, mctx(c), ts@, p as int) == goal,
            c.sig == sig0,
            c.level == level0 + p,
            c.env@.len() == len0 + p,
        decreases ts@.len() - p,
    {
        proof {
            lemma_mctx(c);
        }
        infer_sort(fuel, &c, &ts[p])?;
        let v = need(eval_fuel(fuel, &c.sig, &c.env, &ts[p]))?;
        c = need(c.bind(v))?;
        p = p + 1;
    }
    Ok(c)
}

/// The positivity checks on argument `a` of constructor `j` of inductive
/// `i`, against each ancestor of `i` in turn.
#[verifier::loop_isolation(false)]
fn check_positivity(sig: &Rc<Sig>, anc: &Vec<bool>, i: usize, j: usize, a: &Term) -> (r: Result<
    (),
    KernelError,
>)
    requires
        anc@.len() == sig@.len(),
        forall|k: int|
            0 <= k < sig@.len() ==> (#[trigger] anc@[k] <==> spec_is_ancestor(**sig, k, i as int)),
    ensures
        r == spec_positivity_from(**sig, i as int, j as int, *a, 0),
        r is Ok ==> forall|k: int|
            0 <= k < sig@.len() && spec_is_ancestor(**sig, k, i as int) ==> {
                &&& spec_strictly_positive(k as usize, *a)
                &&& spec_occurs_ind(k as usize, *a) ==> spec_ind_head(*a) == Some(k as usize)
            },
{
    let ghost goal = spec_positivity_from(deref_sig(sig), i as int, j as int, *a, 0);
    let mut k: usize = 0;
    while k < sig.len()
        invariant
            k <= sig@.len(),
            spec_positivity_from(**sig, i as int, j as int, *a, k as int) == goal,
            forall|k2: int|
                0 <= k2 < k && spec_is_ancestor(**sig, k2, i as int) ==> {
                    &&& spec_strictly_positive(k2 as usize, *a)
                    &&& spec_occurs_ind(k2 as usize, *a) ==> spec_ind_head(*a) == Some(
                        k2 as usize,
                    )
                },
        decreases sig@.len() - k,
    {
        if anc[k] {
            if !strictly_positive(k, a) {
                return Err(KernelError::NotStrictlyPositive(i, j, k));
            }
            let headed = match ind_head(a) {
                Some(h) => h == k,
                None => false,
            };
            if occurs_ind(k, a) && !headed {
                return Err(KernelError::NestedRecursion(i, j, k));
            }
        }
        k = k + 1;
    }
    Ok(())
}

/// The uniformity check on a recursive occurrence whose arguments are
/// `spine`, in a context of `level` variables.
#[verifier::loop_isolation(false)]
fn check_uniform(spine: &Vec<Term>, np: usize, level: usize, i: usize, j: usize) -> (r: Result<
    (),
    KernelError,
>)
    requires
        np <= spine@.len(),
        np <= level,
    ensures
        r == spec_uniform_from(spine@, np as int, level as int, i as int, j as int, 0),
        r is Ok ==> forall|q: int|
            0 <= q < np ==> #[trigger] spine@[q] == Term::Var((level - 1 - q) as usize),
{
    let ghost goal = spec_uniform_from(spine@, np as int, level as int, i as int, j as int, 0);
    let mut q: usize = 0;
    while q < np
        invariant
            q <= np,
            spec_uniform_from(spine@, np as int, level as int, i as int, j as int, q as int)
                == goal,
            forall|q2: int|
                0 <= q2 < q ==> #[trigger] spine@[q2] == Term::Var((level - 1 - q2) as usize),
        decreases np - q,
    {
        let uniform = match &spine[q] {
            Term::Var(v) => *v == level - 1 - q,
            _ => false,
        };
        if !uniform {
            return Err(KernelError::NonUniformParam(i, j, q));
        }
        q = q + 1;
    }
    Ok(())
}

/// Checks argument `a` of constructor `j` of inductive `i` in context
/// `cctx`, and binds it.
fn check_arg(
    fuel: u64,
    sig: &Rc<Sig>,
    anc: &Vec<bool>,
    i: usize,
    j: usize,
    cctx: Context,
    a: &Term,
) -> (r: Result<Context, KernelError>)
    requires
        i < sig@.len(),
        cctx.sig == *sig,
        cctx.level >= sig@[i as int].params@.len(),
        anc@.len() == sig@.len(),
        forall|k: int|
            0 <= k < sig@.len() ==> (#[trigger] anc@[k] <==> spec_is_ancestor(**sig, k, i as int)),
    ensures
        match r {
            Ok(c) => spec_check_arg(fuel as nat, **sig, i as int, j as int, mctx(cctx), *a) == Ok::<
                MCtx,
                KernelError,
            >(mctx(c)) && c.sig == *sig && c.level == cctx.level + 1 && c.env@.len()
                == cctx.env@.len() + 1,
            Err(e) => spec_check_arg(fuel as nat, **sig, i as int, j as int, mctx(cctx), *a)
                == Err::<MCtx, KernelError>(e),
        },
        r is Ok ==> {
            &&& forall|k: int|
                0 <= k < sig@.len() && spec_is_ancestor(**sig, k, i as int) ==> {
                    &&& spec_strictly_positive(k as usize, *a)
                    &&& spec_occurs_ind(k as usize, *a) ==> spec_ind_head(*a) == Some(k as usize)
                }
            &&& spec_ind_head(*a) == Some(i) ==> {
                &&& spec_spine_args(*a).len() >= sig@[i as int].params@.len()
                &&& forall|q: int|
                    0 <= q < sig@[i as int].params@.len() ==> #[trigger] spec_spine_args(*a)[q]
                        == Term::Var((cctx.level - 1 - q) as usize)
            }
        },
{
    proof {
        lemma_mctx(cctx);
    }
    let ind = &sig[i];
    let np = ind.params.len();
    let s = infer_sort(fuel, &cctx, a)?;
    if s > ind.sort {
        return Err(KernelError::ArgumentSortTooLarge(i, j, s, ind.sort));
    }
    check_positivity(sig, anc, i, j, a)?;
    let recursive = match ind_head(a) {
        Some(h) => h == i,
        None => false,
    };
    if recursive {
        let spine = spine_args(a);
        if spine.len() < np {
            return Err(KernelError::ParamsNotApplied(i, j));
        }
        check_uniform(&spine, np, cctx.level, i, j)?;
    }
    let av = need(eval_fuel(fuel, &cctx.sig, &cctx.env, a))?;
    need(cctx.bind(av))
}

/// Checks the index values of constructor `con` against the index types of
/// `ind`, in the context `cctx` of the parameters and the arguments.
#[verifier::loop_isolation(false)]
fn check_index_values(
    fuel: u64,
    cctx: &Context,
    ind: &Inductive,
    con: &Constructor,
    np: usize,
) -> (r: Result<(), KernelError>)
    requires
        con.index_values@.len() == ind.indices@.len(),
        np <= cctx.env@.len(),
    ensures
        r == spec_check_index_values(
            fuel as nat,
            mctx(*cctx),
            ind.indices@,
            con.index_values@,
            mctx(*cctx).env.subrange(0, np as int),
            0,
        ),
{
    proof {
        lemma_mctx(*cctx);
    }
    let mut idx_env = slice_env(&cctx.env, 0, np);
    proof {
        lemma_mvals_subrange(cctx.env@, 0, np as int);
    }
    let ghost goal = spec_check_index_values(
        fuel as nat,
        mctx(*cctx),
        ind.indices@,
        con.index_values@,
        mvals(idx_env@),
        0,
    );
    let mut d: usize = 0;
    while d < ind.indices.len()
        invariant
            d <= ind.indices@.len(),
            spec_check_index_values(
                fuel as nat,
                mctx(*cctx),
                ind.indices@,
                con.index_values@,
                mvals(idx_env@),
                d as int,
            ) == goal,
        decreases ind.indices@.len() - d,
    {
        let expected = need(eval_fuel(fuel, &cctx.sig, &idx_env, &ind.indices[d]))?;
        check_fuel(fuel, cctx, &con.index_values[d], &expected)?;
        let iv = need(eval_fuel(fuel, &cctx.sig, &cctx.env, &con.index_values[d]))?;
        proof {
            lemma_mvals_push(idx_env@, iv);
        }
        idx_env.push(iv);
        d = d + 1;
    }
    Ok(())
}

/// Checks constructor `j` of inductive `i`, with the parameters bound in
/// `ctx`.
#[verifier::loop_isolation(false)]
fn check_ctor(fuel: u64, sig: &Rc<Sig>, anc: &Vec<bool>, i: usize, j: usize, ctx: &Context) -> (r:
    Result<(), KernelError>)
    requires
        i < sig@.len(),
        j < sig@[i as int].constructors@.len(),
        ctx.sig == *sig,
        ctx.level == sig@[i as int].params@.len(),
        ctx.env@.len() == sig@[i as int].params@.len(),
        anc@.len() == sig@.len(),
        forall|k: int|
            0 <= k < sig@.len() ==> (#[trigger] anc@[k] <==> spec_is_ancestor(**sig, k, i as int)),
    ensures
        r == spec_check_ctor(fuel as nat, **sig, i as int, j as int, mctx(*ctx)),
        r is Ok ==> spec_ctor_ok(**sig, i as int, j as int),
{
    let ind = &sig[i];
    let c = &ind.constructors[j];
    if c.index_values.len() != ind.indices.len() {
        return Err(KernelError::IndexArityMismatch(i, j));
    }
    let np = ind.params.len();
    let ghost goal = spec_check_args(fuel as nat, deref_sig(sig), i as int, j as int, mctx(*ctx), c.args@, 0);
    let mut cctx = ctx.duplicate();
    let mut l: usize = 0;
    while l < c.args.len()
        invariant
            l <= c.args@.len(),
            cctx.level == np + l,
            cctx.env@.len() == np + l,
            cctx.sig == *sig,
            spec_check_args(fuel as nat, **sig, i as int, j as int, mctx(cctx), c.args@, l as int)
                == goal,
            forall|l2: int| 0 <= l2 < l ==> spec_ctor_arg_ok(**sig, i as int, j as int, l2),
        decreases c.args@.len() - l,
    {
        cctx = check_arg(fuel, sig, anc, i, j, cctx, &c.args[l])?;
        proof {
            assert(spec_ctor_arg_ok(**sig, i as int, j as int, l as int));
        }
        l = l + 1;
    }
    check_index_values(fuel, &cctx, ind, c, np)
}

/// Checks the well-formedness of inductive `i`: parameter, index and
/// argument types are types, argument sorts do not exceed the inductive's
/// sort, positivity and uniform parameters hold, and index values have the
/// declared index types.
#[verifier::loop_isolation(false)]
fn check_inductive(fuel: u64, sig: &Rc<Sig>, i: usize) -> (r: Result<(), KernelError>)
    requires
        i < sig@.len(),
    ensures
        r == spec_check_inductive(fuel as nat, **sig, i as int),
        r is Ok ==> spec_inductive_ok(**sig, i as int),
{
    let ind = &sig[i];
    let anc = ancestors_of(sig, i);
    let ctx = bind_types(fuel, Context::fresh(sig.clone(), Rc::new(Vec::new())), &ind.params)?;
    bind_types(fuel, ctx.duplicate(), &ind.indices)?;
    let ghost goal = spec_check_ctors(fuel as nat, deref_sig(sig), i as int, mctx(ctx), 0);
    let mut j: usize = 0;
    while j < ind.constructors.len()
        invariant
            j <= ind.constructors@.len(),
            spec_check_ctors(fuel as nat, **sig, i as int, mctx(ctx), j as int) == goal,
            forall|j2: int| 0 <= j2 < j ==> spec_ctor_ok(**sig, i as int, j2),
        decreases ind.constructors@.len() - j,
    {
        check_ctor(fuel, sig, &anc, i, j, &ctx)?;
        j = j + 1;
    }
    Ok(())
}

/// The budget of the signature checker: two below `FUEL`, so that the
/// types it evaluates are the ones `infer` evaluates under a Π.
pub open spec fn spec_sig_fuel() -> nat {
    (FUEL - 2) as nat
}

/// Checks every inductive of a signature, in order; the first failure is
/// the verdict. An accepted signature satisfies the structural conditions
/// (positivity, no nested or higher-order recursion through an ancestor,
/// uniform parameters, index arity) on every constructor argument.
pub fn check_signature(sig: &Rc<Sig>) -> (r: Result<(), KernelError>)
    ensures
        r == spec_check_signature_from(spec_sig_fuel(), **sig, 0),
        r is Ok ==> forall|i: int| 0 <= i < sig@.len() ==> spec_inductive_ok(**sig, i),
{
    let fuel: u64 = FUEL - 2;
    let mut i: usize = 0;
    while i < sig.len()
        invariant
            i <= sig@.len(),
            fuel == spec_sig_fuel(),
            spec_check_signature_from(fuel as nat, **sig, i as int) == spec_check_signature_from(
                fuel as nat,
                **sig,
                0,
            ),
            forall|i2: int| 0 <= i2 < i ==> spec_inductive_ok(**sig, i2),
        decreases sig@.len() - i,
    {
        check_inductive(fuel, sig, i)?;
        i = i + 1;
    }
    Ok(())
}

proof fn lemma_signature_from_ok(fuel: nat, sig: Sig, i: int, k: int)
    requires
        0 <= i <= k < sig@.len(),
        spec_check_signature_from(fuel, sig, i) is Ok,
    ensures
        spec_check_inductive(fuel, sig, k) is Ok,
    decreases k - i,
{
    if i < k {
        lemma_signature_from_ok(fuel, sig, i + 1, k);
    }
}

/// Law: under a signature that `check_signature` accepts, `infer` gives
/// every inductive of it a type, in any context over that signature.
pub proof fn lemma_checked_inductive_infers(sig: Sig, c: MCtx, i: usize)
    requires
        spec_check_signature_from(spec_sig_fuel(), sig, 0) is Ok,
        c.sig == sig@,
        i < sig@.len(),
    ensures
        spec_infer(FUEL as nat, c, Term::Ind(i)) is Ok,
{
    let f = spec_sig_fuel();
    lemma_signature_from_ok(f, sig, 0, i as int);
    let ind = sig@[i as int];
    let e0 = spec_empty_ctx(sig@, Seq::empty());
    let tele = ind.params@ + ind.indices@;
    let body = spec_sort_term(ind.sort);
    assert(spec_ind_type(ind) == spec_pis(tele, body));
    if tele.len() == 0 {
        assert(spec_pis(tele, body) == body);
    } else {
        assert(spec_pis(tele, body) == mk_pi(tele[0], spec_pis(tele.drop_first(), body)));
        match spec_bind_types(f, e0, ind.params@, 0) {
            Ok(c1) => {
                if ind.params@.len() > 0 {
                    assert(tele[0] == ind.params@[0]);
                    assert(spec_eval(f, e0.sig, e0.env, ind.params@[0]) is Some);
                } else {
                    assert(c1 == e0);
                    assert(tele[0] == ind.indices@[0]);
                    assert(spec_eval(f, c1.sig, c1.env, ind.indices@[0]) is Some);
                }
            },
            Err(_) => {},
        }
    }
}

/// The sort level of axiom `i`'s type, in the empty context over the
/// signature and the axioms.
#[verifier::opaque]
pub open spec fn spec_axiom_sort(fuel: nat, sig: Seq<Inductive>, axioms: Seq<Term>, i: int) -> Result<
    u32,
    KernelError,
> {
    spec_infer_sort(fuel + 1 as nat, spec_empty_ctx(sig, axioms), axioms[i])
}

/// The verdict on axioms `axioms[i..]`: each, in the empty context over
/// the signature and the axioms, must be a type whose sort is `Prop`.
pub open spec fn spec_check_axioms_from(
    fuel: nat,
    sig: Seq<Inductive>,
    axioms: Seq<Term>,
    i: int,
) -> Result<(), KernelError>
    decreases axioms.len() - i,
{
    if i < 0 || i >= axioms.len() {
        Ok(())
    } else {
        match spec_axiom_sort(fuel, sig, axioms, i) {
            Err(e) => Err(e),
            Ok(s) => if s != 0 {
                Err(KernelError::AxiomNotProp(i as usize))
            } else {
                spec_check_axioms_from(fuel, sig, axioms, i + 1)
            },
        }
    }
}

#[verifier::loop_isolation(false)]
fn check_axioms_fuel(fuel: u64, sig: &Rc<Sig>, axioms: &Rc<Vec<Term>>) -> (r: Result<
    (),
    KernelError,
>)
    ensures
        r == spec_check_axioms_from(fuel as nat, sig@, axioms@, 0),
{
    let ctx = Context::with_sig_and_axioms(sig.clone(), axioms.clone());
    let ghost goal = spec_check_axioms_from(fuel as nat, sig@, axioms@, 0);
    let mut i: usize = 0;
    while i < axioms.len()
        invariant
            i <= axioms@.len(),
            mctx(ctx) == spec_empty_ctx(sig@, axioms@),
            spec_check_axioms_from(fuel as nat, sig@, axioms@, i as int) == goal,
        decreases axioms@.len() - i,
    {
        let res = infer_sort_at(fuel, &ctx, &axioms[i]);
        proof {
            reveal(spec_axiom_sort);
            assert(res == spec_axiom_sort(fuel as nat, sig@, axioms@, i as int));
        }
        match res {
            Err(e) => {
                return Err(e);
            },
            Ok(s) => {
                if s != 0 {
                    return Err(KernelError::AxiomNotProp(i));
                }
            },
        }
        i = i + 1;
    }
    Ok(())
}

/// Law: the axioms `axioms[i..]` pass exactly when `infer`, in the empty
/// context over the signature and the axioms, gives each of them the type
/// `Prop`.
pub proof fn lemma_check_axioms_is_infer(sig: Seq<Inductive>, axioms: Seq<Term>, i: int)
    requires
        0 <= i <= axioms.len(),
    ensures
        spec_check_axioms_from(FUEL as nat, sig, axioms, i) is Ok <==> forall|m: int|
            i <= m < axioms.len() ==> spec_infer(
                FUEL as nat,
                spec_empty_ctx(sig, axioms),
                #[trigger] axioms[m],
            ) == Ok::<MValue, KernelError>(MValue::Prop),
    decreases axioms.len() - i,
{
    reveal(spec_axiom_sort);
    if i < axioms.len() {
        lemma_check_axioms_is_infer(sig, axioms, i + 1);
        let c = spec_empty_ctx(sig, axioms);
        assert(spec_infer_sort((FUEL + 1) as nat, c, axioms[i]) == match spec_infer(
            FUEL as nat,
            c,
            axioms[i],
        ) {
            Err(e) => Err(e),
            Ok(ty) => match ty {
                MValue::Prop | MValue::Universe(_) => spec_need(spec_level_of_sort(ty)),
                _ => Err(KernelError::ExpectedType),
            },
        });
    }
}

/// The verdict on an axiom whose inferred type is `ty` (or whose inference
/// failed) when that type is not `Prop`.
pub open spec fn spec_axiom_error(i: int, ty: Result<MValue, KernelError>) -> Result<(), KernelError> {
    match ty {
        Err(e) => Err(e),
        Ok(MValue::Universe(n)) => if n < u32::MAX {
            Err(KernelError::AxiomNotProp(i as usize))
        } else {
            Err(KernelError::Malformed)
        },
        Ok(_) => Err(KernelError::ExpectedType),
    }
}

/// Law: the verdict on the axioms `axioms[i..]` is that of the first one
/// whose inferred type is not `Prop`: its inference error, or "not a
/// proposition" where its type is a universe.
pub proof fn lemma_check_axioms_first_failure(sig: Seq<Inductive>, axioms: Seq<Term>, i: int, m: int)
    requires
        0 <= i <= m < axioms.len(),
        forall|m2: int|
            i <= m2 < m ==> spec_infer(FUEL as nat, spec_empty_ctx(sig, axioms), #[trigger] axioms[m2])
                == Ok::<MValue, KernelError>(MValue::Prop),
        spec_infer(FUEL as nat, spec_empty_ctx(sig, axioms), axioms[m]) != Ok::<MValue, KernelError>(
            MValue::Prop,
        ),
    ensures
        spec_check_axioms_from(FUEL as nat, sig, axioms, i) == spec_axiom_error(
            m,
            spec_infer(FUEL as nat, spec_empty_ctx(sig, axioms), axioms[m]),
        ),
    decreases m - i,
{
    reveal(spec_axiom_sort);
    let c = spec_empty_ctx(sig, axioms);
    assert(spec_infer_sort((FUEL + 1) as nat, c, axioms[i]) == match spec_infer(
        FUEL as nat,
        c,
        axioms[i],
    ) {
        Err(e) => Err(e),
        Ok(ty) => match ty {
            MValue::Prop | MValue::Universe(_) => spec_need(spec_level_of_sort(ty)),
            _ => Err(KernelError::ExpectedType),
        },
    });
    if i < m {
        assert(spec_infer(FUEL as nat, c, axioms[i]) == Ok::<MValue, KernelError>(MValue::Prop));
        lemma_check_axioms_first_failure(sig, axioms, i + 1, m);
    }
}

/// Checks that every axiom's type is a proposition.
pub fn check_axioms(sig: &Rc<Sig>, axioms: &Rc<Vec<Term>>) -> (r: Result<(), KernelError>)
    ensures
        r == spec_check_axioms_from(FUEL as nat, sig@, axioms@, 0),
{
    check_axioms_fuel(FUEL, sig, axioms)
}

} // verus!
