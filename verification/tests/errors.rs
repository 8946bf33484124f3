use oxo_kernel::{
    check, check_axioms, check_signature, infer, Constructor, Context, Inductive, KernelError,
    Sig, Term, Value,
};
use std::rc::Rc;

fn lam(a: Term, t: Term) -> Term {
    Term::Lam(Box::new(a), Box::new(t))
}
fn app(f: Term, x: Term) -> Term {
    Term::App(Box::new(f), Box::new(x))
}
fn pi(a: Term, b: Term) -> Term {
    Term::Pi(Box::new(a), Box::new(b))
}
fn ctor(args: Vec<Term>, index_values: Vec<Term>) -> Constructor {
    Constructor { args, index_values }
}
fn one(params: Vec<Term>, indices: Vec<Term>, sort: u32, constructors: Vec<Constructor>) -> Rc<Sig> {
    Rc::new(vec![Inductive { params, indices, sort, constructors }])
}

fn infer_err(ctx: &Context, t: Term) -> KernelError {
    match infer(ctx, &t) {
        Ok(_) => panic!("the term was accepted"),
        Err(e) => e,
    }
}

#[test]
fn unbound_variable_is_reported() {
    assert_eq!(infer_err(&Context::new(), Term::Var(0)), KernelError::UnboundVariable(0));
}

#[test]
fn applying_a_non_function_is_reported() {
    let t = app(Term::Universe(0), Term::Prop);
    assert_eq!(infer_err(&Context::new(), t), KernelError::NotAFunction);
}

#[test]
fn pair_with_non_sigma_annotation_is_reported() {
    let t = Term::Pair(Box::new(Term::Prop), Box::new(Term::Prop), Box::new(Term::Prop));
    assert_eq!(infer_err(&Context::new(), t), KernelError::PairNotSigma);
}

#[test]
fn projections_of_non_pairs_are_reported() {
    let ctx = Context::new();
    assert_eq!(infer_err(&ctx, Term::Fst(Box::new(Term::Prop))), KernelError::FstOfNonPair);
    assert_eq!(infer_err(&ctx, Term::Snd(Box::new(Term::Prop))), KernelError::SndOfNonPair);
}

#[test]
fn unknown_globals_are_reported() {
    let ctx = Context::new();
    assert_eq!(infer_err(&ctx, Term::Ind(3)), KernelError::UnknownInductive(3));
    assert_eq!(infer_err(&ctx, Term::Rec(2, 0)), KernelError::UnknownInductive(2));
    assert_eq!(infer_err(&ctx, Term::Constr(0, 5)), KernelError::UnknownConstructor(0, 5));
    assert_eq!(infer_err(&ctx, Term::Axiom(0)), KernelError::UnknownAxiom(0));
}

#[test]
fn large_elimination_from_a_proposition_is_refused() {
    let or_like = one(vec![], vec![], 0, vec![ctor(vec![], vec![]), ctor(vec![], vec![])]);
    let ctx = Context::with_sig(or_like);
    assert_eq!(infer_err(&ctx, Term::Rec(0, 1)), KernelError::LargeElimination);
    assert!(infer(&ctx, &Term::Rec(0, 0)).is_ok());
}

#[test]
fn non_type_domain_is_reported() {
    let t = pi(lam(Term::Prop, Term::Var(0)), Term::Prop);
    assert_eq!(infer_err(&Context::new(), t), KernelError::ExpectedType);
}

#[test]
fn mismatched_type_is_reported() {
    let ctx = Context::new();
    let expected = Rc::new(Value::Universe(5));
    assert_eq!(check(&ctx, &Term::Prop, &expected), Err(KernelError::TypeMismatch(Term::Universe(0), Term::Universe(5))));
    assert_eq!(check(&ctx, &Term::Prop, &Rc::new(Value::Universe(0))), Ok(()));
}

#[test]
fn universe_overflow_is_malformed() {
    assert_eq!(infer_err(&Context::new(), Term::Universe(u32::MAX)), KernelError::Malformed);
}

#[test]
fn index_arity_mismatch_is_reported() {
    let sig = one(vec![], vec![Term::Universe(0)], 1, vec![ctor(vec![], vec![])]);
    assert_eq!(check_signature(&sig), Err(KernelError::IndexArityMismatch(0, 0)));
}

#[test]
fn argument_in_too_large_a_sort_is_reported() {
    let sig = one(vec![], vec![], 0, vec![ctor(vec![Term::Universe(0)], vec![])]);
    assert_eq!(check_signature(&sig), Err(KernelError::ArgumentSortTooLarge(0, 0, 2, 0)));
}

#[test]
fn negative_occurrence_is_reported() {
    let sig = one(vec![], vec![], 1, vec![ctor(vec![pi(Term::Ind(0), Term::Ind(0))], vec![])]);
    assert_eq!(check_signature(&sig), Err(KernelError::NotStrictlyPositive(0, 0, 0)));
}

#[test]
fn recursion_under_a_binder_is_reported() {
    let sig = one(vec![], vec![], 1, vec![ctor(vec![pi(Term::Prop, Term::Ind(0))], vec![])]);
    assert_eq!(check_signature(&sig), Err(KernelError::NestedRecursion(0, 0, 0)));
}

#[test]
fn non_uniform_parameter_is_reported() {
    let arg = app(Term::Ind(0), Term::Var(0));
    let sig = one(
        vec![Term::Universe(0)],
        vec![],
        2,
        vec![ctor(vec![Term::Universe(0), arg], vec![])],
    );
    assert_eq!(check_signature(&sig), Err(KernelError::NonUniformParam(0, 0, 0)));
}

#[test]
fn axiom_outside_prop_is_reported() {
    let sig: Rc<Sig> = Rc::new(vec![]);
    let axioms = Rc::new(vec![Term::Prop, Term::Universe(0)]);
    assert_eq!(check_axioms(&sig, &axioms), Err(KernelError::AxiomNotProp(0)));
    let a_type = Rc::new(vec![pi(Term::Prop, Term::Prop)]);
    assert_eq!(check_axioms(&sig, &a_type), Err(KernelError::AxiomNotProp(0)));
    let a_proposition = Rc::new(vec![pi(Term::Prop, Term::Var(0))]);
    assert_eq!(check_axioms(&sig, &a_proposition), Ok(()));
}

#[test]
fn errors_render_as_text() {
    assert_eq!(
        KernelError::ArgumentSortTooLarge(0, 0, 2, 0).message(),
        "constructor 0.0 argument sort 2 exceeds inductive sort 0"
    );
    assert_eq!(
        KernelError::IndexArityMismatch(0, 0).message(),
        "constructor 0.0 index arity mismatch"
    );
    assert_eq!(KernelError::UnboundVariable(12).message(), "unbound variable 12");
    assert_eq!(
        KernelError::TypeMismatch(Term::Universe(0), Term::Universe(5)).message(),
        "type mismatch: inferred Universe(0), expected Universe(5)"
    );
    assert_eq!(
        KernelError::TypeMismatch(
            Term::Pi(Box::new(Term::Prop), Box::new(Term::Var(0))),
            Term::Constr(1, 20)
        )
        .message(),
        "type mismatch: inferred Pi(Prop, Var(0)), expected Constr(1, 20)"
    );
    assert_eq!(
        KernelError::NonUniformParam(3, 1, 0).message(),
        "constructor 3.1 recursive occurrence does not reuse parameter 0 uniformly"
    );
    assert_eq!(KernelError::AxiomNotProp(7).message(), "axiom 7 type is not a proposition");
    assert_eq!(KernelError::PairNotSigma.message(), "pair annotated with a non-Σ type");
}
