use vstd::prelude::*;

verus! {

/// Terms of the kernel's type theory, in de Bruijn index notation.
#[derive(Debug, PartialEq)]
pub enum Term {
    Var(usize),
    Universe(u32),
    Prop,
    Pi(Box<Term>, Box<Term>),
    Lam(Box<Term>, Box<Term>),
    App(Box<Term>, Box<Term>),
    Sigma(Box<Term>, Box<Term>),
    Pair(Box<Term>, Box<Term>, Box<Term>),
    Fst(Box<Term>),
    Snd(Box<Term>),
    Ind(usize),
    Constr(usize, usize),
    Rec(usize, u32),
    Axiom(usize),
}

impl Clone for Term {
    fn clone(&self) -> (res: Self)
        ensures
            res == *self,
        decreases self,
    {
        match self {
            Term::Var(i) => Term::Var(*i),
            Term::Universe(n) => Term::Universe(*n),
            Term::Prop => Term::Prop,
            Term::Pi(a, b) => Term::Pi(Box::new((**a).clone()), Box::new((**b).clone())),
            Term::Lam(a, b) => Term::Lam(Box::new((**a).clone()), Box::new((**b).clone())),
            Term::App(a, b) => Term::App(Box::new((**a).clone()), Box::new((**b).clone())),
            Term::Sigma(a, b) => Term::Sigma(Box::new((**a).clone()), Box::new((**b).clone())),
            Term::Pair(s, a, b) => Term::Pair(
                Box::new((**s).clone()),
                Box::new((**a).clone()),
                Box::new((**b).clone()),
            ),
            Term::Fst(p) => Term::Fst(Box::new((**p).clone())),
            Term::Snd(p) => Term::Snd(Box::new((**p).clone())),
            Term::Ind(i) => Term::Ind(*i),
            Term::Constr(i, j) => Term::Constr(*i, *j),
            Term::Rec(i, t) => Term::Rec(*i, *t),
            Term::Axiom(i) => Term::Axiom(*i),
        }
    }
}

/// A constructor: its argument telescope (after the parameters) and the
/// values of the inductive's indices in its result type.
pub struct Constructor {
    pub args: Vec<Term>,
    pub index_values: Vec<Term>,
}

impl Clone for Constructor {
    fn clone(&self) -> (res: Self)
        ensures
            res.args@ == self.args@,
            res.index_values@ == self.index_values@,
    {
        let args = self.args.clone();
        let index_values = self.index_values.clone();
        proof {
            assert(args@ =~= self.args@);
            assert(index_values@ =~= self.index_values@);
        }
        Constructor { args, index_values }
    }
}

/// An inductive family: parameters, indices, the level of its sort
/// (0 is `Prop`, `n + 1` is `Universe(n)`) and its constructors.
pub struct Inductive {
    pub params: Vec<Term>,
    pub indices: Vec<Term>,
    pub sort: u32,
    pub constructors: Vec<Constructor>,
}

pub type Sig = Vec<Inductive>;

pub open spec fn mk_pi(a: Term, b: Term) -> Term {
    Term::Pi(Box::new(a), Box::new(b))
}

pub open spec fn mk_app(f: Term, x: Term) -> Term {
    Term::App(Box::new(f), Box::new(x))
}

/// `Prop` for level 0, `Universe(level - 1)` otherwise.
pub open spec fn spec_sort_term(level: u32) -> Term {
    if level == 0 {
        Term::Prop
    } else {
        Term::Universe((level - 1) as u32)
    }
}

/// The telescope `Π tele[0]. Π tele[1]. ... body`.
pub open spec fn spec_pis(tele: Seq<Term>, body: Term) -> Term
    decreases tele.len(),
{
    if tele.len() == 0 {
        body
    } else {
        mk_pi(tele[0], spec_pis(tele.drop_first(), body))
    }
}

/// The application `head args[0] ... args[n-1]`.
pub open spec fn spec_apps(head: Term, args: Seq<Term>) -> Term
    decreases args.len(),
{
    if args.len() == 0 {
        head
    } else {
        mk_app(spec_apps(head, args.drop_last()), args.last())
    }
}

/// Shifting the free variables `>= c` of a term by `d`; `None` when an
/// index or the cutoff would leave the range of `usize`.
pub open spec fn spec_lift(d: usize, c: usize, t: Term) -> Option<Term>
    decreases t,
{
    match t {
        Term::Var(k) => if k >= c {
            if k + d <= usize::MAX {
                Some(Term::Var((k + d) as usize))
            } else {
                None
            }
        } else {
            Some(Term::Var(k))
        },
        Term::Universe(n) => Some(Term::Universe(n)),
        Term::Prop => Some(Term::Prop),
        Term::Ind(i) => Some(Term::Ind(i)),
        Term::Constr(i, j) => Some(Term::Constr(i, j)),
        Term::Rec(i, n) => Some(Term::Rec(i, n)),
        Term::Axiom(i) => Some(Term::Axiom(i)),
        Term::Pi(a, b) => if c < usize::MAX {
            match (spec_lift(d, c, *a), spec_lift(d, (c + 1) as usize, *b)) {
                (Some(x), Some(y)) => Some(Term::Pi(Box::new(x), Box::new(y))),
                _ => None,
            }
        } else {
            None
        },
        Term::Lam(a, b) => if c < usize::MAX {
            match (spec_lift(d, c, *a), spec_lift(d, (c + 1) as usize, *b)) {
                (Some(x), Some(y)) => Some(Term::Lam(Box::new(x), Box::new(y))),
                _ => None,
            }
        } else {
            None
        },
        Term::Sigma(a, b) => if c < usize::MAX {
            match (spec_lift(d, c, *a), spec_lift(d, (c + 1) as usize, *b)) {
                (Some(x), Some(y)) => Some(Term::Sigma(Box::new(x), Box::new(y))),
                _ => None,
            }
        } else {
            None
        },
        Term::App(f, x) => match (spec_lift(d, c, *f), spec_lift(d, c, *x)) {
            (Some(y), Some(z)) => Some(Term::App(Box::new(y), Box::new(z))),
            _ => None,
        },
        Term::Pair(s, a, b) => match (spec_lift(d, c, *s), spec_lift(d, c, *a), spec_lift(d, c, *b)) {
            (Some(x), Some(y), Some(z)) => Some(Term::Pair(Box::new(x), Box::new(y), Box::new(z))),
            _ => None,
        },
        Term::Fst(p) => match spec_lift(d, c, *p) {
            Some(x) => Some(Term::Fst(Box::new(x))),
            None => None,
        },
        Term::Snd(p) => match spec_lift(d, c, *p) {
            Some(x) => Some(Term::Snd(Box::new(x))),
            None => None,
        },
    }
}

/// The inductive at the head of an application spine, if any.
pub open spec fn spec_ind_head(t: Term) -> Option<usize>
    decreases t,
{
    match t {
        Term::App(f, _) => spec_ind_head(*f),
        Term::Ind(i) => Some(i),
        _ => None,
    }
}

/// The arguments of an application spine, outermost last.
pub open spec fn spec_spine_args(t: Term) -> Seq<Term>
    decreases t,
{
    match t {
        Term::App(f, x) => spec_spine_args(*f).push(*x),
        _ => Seq::empty(),
    }
}

/// Whether inductive `i` (its type former, a constructor or its recursor)
/// occurs anywhere in `t`.
pub open spec fn spec_occurs_ind(i: usize, t: Term) -> bool
    decreases t,
{
    match t {
        Term::Var(_) | Term::Universe(_) | Term::Prop | Term::Axiom(_) => false,
        Term::Ind(j) => j == i,
        Term::Constr(j, _) => j == i,
        Term::Rec(j, _) => j == i,
        Term::Pi(a, b) | Term::Lam(a, b) | Term::Sigma(a, b) => spec_occurs_ind(i, *a)
            || spec_occurs_ind(i, *b),
        Term::App(f, x) => spec_occurs_ind(i, *f) || spec_occurs_ind(i, *x),
        Term::Pair(s, a, b) => spec_occurs_ind(i, *s) || spec_occurs_ind(i, *a) || spec_occurs_ind(
            i,
            *b,
        ),
        Term::Fst(p) | Term::Snd(p) => spec_occurs_ind(i, *p),
    }
}

/// Strict positivity of inductive `i` in a constructor argument type: `i`
/// may only occur as the head of the final codomain of a Π-telescope,
/// never in a domain nor in an argument of that head.
pub open spec fn spec_strictly_positive(i: usize, t: Term) -> bool
    decreases t,
{
    match t {
        Term::Pi(a, b) => !spec_occurs_ind(i, *a) && spec_strictly_positive(i, *b),
        _ => if spec_ind_head(t) == Some(i) {
            forall|k: int|
                0 <= k < spec_spine_args(t).len() ==> !spec_occurs_ind(
                    i,
                    #[trigger] spec_spine_args(t)[k],
                )
        } else {
            !spec_occurs_ind(i, t)
        },
    }
}

/// The inductives that `t` mentions, restricted to `0 <= j < n`.
pub open spec fn spec_refs(t: Term, n: nat) -> Set<nat>
    decreases t,
{
    match t {
        Term::Ind(j) | Term::Constr(j, _) | Term::Rec(j, _) => if j < n {
            set![j as nat]
        } else {
            Set::empty()
        },
        Term::Pi(a, b) | Term::Lam(a, b) | Term::Sigma(a, b) => spec_refs(*a, n).union(
            spec_refs(*b, n),
        ),
        Term::App(f, x) => spec_refs(*f, n).union(spec_refs(*x, n)),
        Term::Pair(s, a, b) => spec_refs(*s, n).union(spec_refs(*a, n)).union(spec_refs(*b, n)),
        Term::Fst(p) | Term::Snd(p) => spec_refs(*p, n),
        _ => Set::empty(),
    }
}

pub fn sort_term(level: u32) -> (r: Term)
    ensures
        r == spec_sort_term(level),
{
    if level == 0 {
        Term::Prop
    } else {
        Term::Universe(level - 1)
    }
}

pub fn pis(tele: &[Term], body: Term) -> (r: Term)
    ensures
        r == spec_pis(tele@, body),
{
    let mut out = body;
    let mut i = tele.len();
    while i > 0
        invariant
            i <= tele@.len(),
            out == spec_pis(tele@.subrange(i as int, tele@.len() as int), body),
        decreases i,
    {
        i = i - 1;
        let ghost rest = tele@.subrange(i as int + 1, tele@.len() as int);
        assert(tele@.subrange(i as int, tele@.len() as int).drop_first() =~= rest);
        out = Term::Pi(Box::new(tele[i].clone()), Box::new(out));
    }
    assert(tele@.subrange(0, tele@.len() as int) =~= tele@);
    out
}

pub fn apps(head: Term, args: &[Term]) -> (r: Term)
    ensures
        r == spec_apps(head, args@),
{
    let mut out = head;
    let mut i: usize = 0;
    while i < args.len()
        invariant
            i <= args@.len(),
            out == spec_apps(head, args@.subrange(0, i as int)),
        decreases args@.len() - i,
    {
        assert(args@.subrange(0, i as int + 1).drop_last() =~= args@.subrange(0, i as int));
        out = Term::App(Box::new(out), Box::new(args[i].clone()));
        i = i + 1;
    }
    assert(args@.subrange(0, args@.len() as int) =~= args@);
    out
}

pub fn lift(d: usize, c: usize, term: &Term) -> (r: Option<Term>)
    ensures
        r == spec_lift(d, c, *term),
    decreases term,
{
    match term {
        Term::Var(k) => {
            if *k >= c {
                if *k <= usize::MAX - d {
                    Some(Term::Var(*k + d))
                } else {
                    None
                }
            } else {
                Some(Term::Var(*k))
            }
        },
        Term::Universe(n) => Some(Term::Universe(*n)),
        Term::Prop => Some(Term::Prop),
        Term::Ind(i) => Some(Term::Ind(*i)),
        Term::Constr(i, j) => Some(Term::Constr(*i, *j)),
        Term::Rec(i, t) => Some(Term::Rec(*i, *t)),
        Term::Axiom(i) => Some(Term::Axiom(*i)),
        Term::Pi(a, b) => {
            if c == usize::MAX {
                return None;
            }
            match (lift(d, c, a), lift(d, c + 1, b)) {
                (Some(x), Some(y)) => Some(Term::Pi(Box::new(x), Box::new(y))),
                _ => None,
            }
        },
        Term::Lam(a, b) => {
            if c == usize::MAX {
                return None;
            }
            match (lift(d, c, a), lift(d, c + 1, b)) {
                (Some(x), Some(y)) => Some(Term::Lam(Box::new(x), Box::new(y))),
                _ => None,
            }
        },
        Term::Sigma(a, b) => {
            if c == usize::MAX {
                return None;
            }
            match (lift(d, c, a), lift(d, c + 1, b)) {
                (Some(x), Some(y)) => Some(Term::Sigma(Box::new(x), Box::new(y))),
                _ => None,
            }
        },
        Term::App(f, x) => match (lift(d, c, f), lift(d, c, x)) {
            (Some(y), Some(z)) => Some(Term::App(Box::new(y), Box::new(z))),
            _ => None,
        },
        Term::Pair(s, a, b) => match (lift(d, c, s), lift(d, c, a), lift(d, c, b)) {
            (Some(x), Some(y), Some(z)) => Some(Term::Pair(Box::new(x), Box::new(y), Box::new(z))),
            _ => None,
        },
        Term::Fst(p) => match lift(d, c, p) {
            Some(x) => Some(Term::Fst(Box::new(x))),
            None => None,
        },
        Term::Snd(p) => match lift(d, c, p) {
            Some(x) => Some(Term::Snd(Box::new(x))),
            None => None,
        },
    }
}

pub fn ind_head(term: &Term) -> (r: Option<usize>)
    ensures
        r == spec_ind_head(*term),
    decreases term,
{
    match term {
        Term::App(f, _) => ind_head(f),
        Term::Ind(i) => Some(*i),
        _ => None,
    }
}

pub fn spine_args(term: &Term) -> (r: Vec<Term>)
    ensures
        r@ == spec_spine_args(*term),
    decreases term,
{
    match term {
        Term::App(f, x) => {
            let mut out = spine_args(f);
            out.push((**x).clone());
            out
        },
        _ => Vec::new(),
    }
}

pub fn occurs_ind(i: usize, term: &Term) -> (r: bool)
    ensures
        r == spec_occurs_ind(i, *term),
    decreases term,
{
    match term {
        Term::Var(_) | Term::Universe(_) | Term::Prop | Term::Axiom(_) => false,
        Term::Ind(j) => *j == i,
        Term::Constr(j, _) => *j == i,
        Term::Rec(j, _) => *j == i,
        Term::Pi(a, b) | Term::Lam(a, b) | Term::Sigma(a, b) => occurs_ind(i, a) || occurs_ind(
            i,
            b,
        ),
        Term::App(f, x) => occurs_ind(i, f) || occurs_ind(i, x),
        Term::Pair(s, a, b) => occurs_ind(i, s) || occurs_ind(i, a) || occurs_ind(i, b),
        Term::Fst(p) | Term::Snd(p) => occurs_ind(i, p),
    }
}

pub fn strictly_positive(i: usize, t: &Term) -> (r: bool)
    ensures
        r == spec_strictly_positive(i, *t),
    decreases t,
{
    match t {
        Term::Pi(a, b) => !occurs_ind(i, a) && strictly_positive(i, b),
        _ => {
            let headed = match ind_head(t) {
                Some(h) => h == i,
                None => false,
            };
            if headed {
                let args = spine_args(t);
                let mut k: usize = 0;
                while k < args.len()
                    invariant
                        args@ == spec_spine_args(*t),
                        spec_ind_head(*t) == Some(i),
                        !(*t is Pi),
                        k <= args@.len(),
                        forall|m: int| 0 <= m < k ==> !spec_occurs_ind(i, #[trigger] args@[m]),
                    decreases args@.len() - k,
                {
                    if occurs_ind(i, &args[k]) {
                        proof {
                            let tt = *t;
                            assert(spec_occurs_ind(i, spec_spine_args(tt)[k as int]));
                            assert(spec_ind_head(tt) == Some(i));
                            assert(k < spec_spine_args(tt).len());
                            assert(!(forall|m: int|
                                0 <= m < spec_spine_args(tt).len() ==> !spec_occurs_ind(
                                    i,
                                    #[trigger] spec_spine_args(tt)[m],
                                )));
                            assert(!spec_strictly_positive(i, tt));
                        }
                        return false;
                    }
                    k = k + 1;
                }
                true
            } else {
                !occurs_ind(i, t)
            }
        },
    }
}

/// Marks in `out` every inductive below `out.len()` that `t` mentions.
pub fn collect_ind_refs(t: &Term, out: &mut Vec<bool>)
    ensures
        final(out)@.len() == old(out)@.len(),
        forall|j: int|
            0 <= j < old(out)@.len() ==> (#[trigger] final(out)@[j] == (old(out)@[j]
                || spec_refs(*t, old(out)@.len() as nat).contains(j as nat))),
    decreases t,
{
    match t {
        Term::Ind(j) | Term::Constr(j, _) | Term::Rec(j, _) => {
            if *j < out.len() {
                out.set(*j, true);
            }
        },
        Term::Pi(a, b) | Term::Lam(a, b) | Term::Sigma(a, b) => {
            collect_ind_refs(a, out);
            collect_ind_refs(b, out);
        },
        Term::App(f, x) => {
            collect_ind_refs(f, out);
            collect_ind_refs(x, out);
        },
        Term::Pair(s, a, b) => {
            collect_ind_refs(s, out);
            collect_ind_refs(a, out);
            collect_ind_refs(b, out);
        },
        Term::Fst(p) | Term::Snd(p) => collect_ind_refs(p, out),
        _ => {},
    }
}

/// Law: the head of an application built by `apps` from an inductive is
/// that inductive.
pub proof fn lemma_ind_head_apps(i: usize, args: Seq<Term>)
    ensures
        spec_ind_head(spec_apps(Term::Ind(i), args)) == Some(i),
    decreases args.len(),
{
    if args.len() > 0 {
        lemma_ind_head_apps(i, args.drop_last());
    }
}

/// Law: `spine_args` recovers exactly the arguments that `apps` applied to
/// a head that is not itself an application.
pub proof fn lemma_spine_args_apps(head: Term, args: Seq<Term>)
    requires
        !(head is App),
    ensures
        spec_spine_args(spec_apps(head, args)) == args,
    decreases args.len(),
{
    if args.len() > 0 {
        lemma_spine_args_apps(head, args.drop_last());
        assert(args.drop_last().push(args.last()) =~= args);
    } else {
        assert(args =~= Seq::empty());
    }
}

/// Law: lifting by zero is the identity (whenever no binder cutoff
/// overflows).
pub proof fn lemma_lift_zero(c: usize, t: Term)
    requires
        c + spec_binder_depth(t) <= usize::MAX,
    ensures
        spec_lift(0, c, t) == Some(t),
    decreases t,
{
    match t {
        Term::Pi(a, b) | Term::Lam(a, b) | Term::Sigma(a, b) => {
            lemma_lift_zero(c, *a);
            lemma_lift_zero((c + 1) as usize, *b);
        },
        Term::App(f, x) => {
            lemma_lift_zero(c, *f);
            lemma_lift_zero(c, *x);
        },
        Term::Pair(s, a, b) => {
            lemma_lift_zero(c, *s);
            lemma_lift_zero(c, *a);
            lemma_lift_zero(c, *b);
        },
        Term::Fst(p) | Term::Snd(p) => lemma_lift_zero(c, *p),
        _ => {},
    }
}

/// The deepest nesting of binders in a term.
pub open spec fn spec_binder_depth(t: Term) -> nat
    decreases t,
{
    match t {
        Term::Pi(a, b) | Term::Lam(a, b) | Term::Sigma(a, b) => vstd::math::max(
            spec_binder_depth(*a) as int,
            1 + spec_binder_depth(*b) as int,
        ) as nat,
        Term::App(f, x) => vstd::math::max(
            spec_binder_depth(*f) as int,
            spec_binder_depth(*x) as int,
        ) as nat,
        Term::Pair(s, a, b) => vstd::math::max(
            spec_binder_depth(*s) as int,
            vstd::math::max(spec_binder_depth(*a) as int, spec_binder_depth(*b) as int),
        ) as nat,
        Term::Fst(p) | Term::Snd(p) => spec_binder_depth(*p),
        _ => 0,
    }
}

} // verus!
