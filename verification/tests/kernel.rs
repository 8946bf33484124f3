use oxo_kernel::{
    check, check_axioms, check_signature, erase, infer, Constructor,
    Context, ETerm, Inductive, Sig, Term, Value,
};
use std::rc::Rc;

fn eval(sig: &Rc<Sig>, env: &Vec<Rc<Value>>, term: &Term) -> Rc<Value> {
    oxo_kernel::eval(sig, env, term).expect("evaluation succeeds")
}

fn quote(level: usize, value: &Rc<Value>) -> Term {
    oxo_kernel::quote(level, value).expect("read-back succeeds")
}

fn sort_level_of_type(ctx: &Context, ty: &Rc<Value>) -> u32 {
    oxo_kernel::sort_level_of_type(ctx, ty).expect("sort level is defined")
}

fn normalize(term: &Term) -> Term {
    oxo_kernel::normalize(term).expect("normalisation succeeds")
}

fn enorm(sig: &Rc<Sig>, term: &ETerm) -> ETerm {
    oxo_kernel::enorm(sig, term).expect("erased normalisation succeeds")
}


fn u(n: u32) -> Term {
    Term::Universe(n)
}
fn prop() -> Term {
    Term::Prop
}
fn pi(a: Term, b: Term) -> Term {
    Term::Pi(Box::new(a), Box::new(b))
}
fn lam(a: Term, t: Term) -> Term {
    Term::Lam(Box::new(a), Box::new(t))
}
fn app(f: Term, x: Term) -> Term {
    Term::App(Box::new(f), Box::new(x))
}
fn sigma(a: Term, b: Term) -> Term {
    Term::Sigma(Box::new(a), Box::new(b))
}
fn pair(s: Term, a: Term, b: Term) -> Term {
    Term::Pair(Box::new(s), Box::new(a), Box::new(b))
}
fn fst(p: Term) -> Term {
    Term::Fst(Box::new(p))
}
fn snd(p: Term) -> Term {
    Term::Snd(Box::new(p))
}
fn v(i: usize) -> Term {
    Term::Var(i)
}
fn empty() -> Rc<Sig> {
    Rc::new(Vec::new())
}
fn val(term: &Term) -> Rc<Value> {
    eval(&empty(), &Vec::new(), term)
}
fn norm(sig: &Rc<Sig>, term: &Term) -> Term {
    quote(0, &eval(sig, &Vec::new(), term))
}

fn bool_sig() -> Rc<Sig> {
    Rc::new(vec![Inductive {
        params: vec![],
        indices: vec![],
        sort: 1,
        constructors: vec![
            Constructor {
                args: vec![],
                index_values: vec![],
            },
            Constructor {
                args: vec![],
                index_values: vec![],
            },
        ],
    }])
}

fn nat_sig() -> Rc<Sig> {
    Rc::new(vec![Inductive {
        params: vec![],
        indices: vec![],
        sort: 1,
        constructors: vec![
            Constructor {
                args: vec![],
                index_values: vec![],
            },
            Constructor {
                args: vec![Term::Ind(0)],
                index_values: vec![],
            },
        ],
    }])
}

#[test]
fn universe_typing() {
    let ctx = Context::new();
    assert_eq!(quote(0, &infer(&ctx, &u(0)).unwrap()), u(1));
}

#[test]
fn prop_is_a_type() {
    let ctx = Context::new();
    assert_eq!(quote(0, &infer(&ctx, &prop()).unwrap()), u(0));
}

#[test]
fn polymorphic_identity() {
    let ctx = Context::new();
    let id = lam(u(0), lam(v(0), v(0)));
    assert_eq!(
        quote(0, &infer(&ctx, &id).unwrap()),
        pi(u(0), pi(v(0), v(1)))
    );
}

#[test]
fn application_reduces() {
    let ctx = Context::new();
    let term = app(lam(u(1), v(0)), u(0));
    assert_eq!(quote(0, &infer(&ctx, &term).unwrap()), u(1));
    assert_eq!(normalize(&term), u(0));
}

#[test]
fn dependent_application() {
    let ctx = Context::new();
    let id = lam(u(1), lam(v(0), v(0)));
    let applied = app(id, u(0));
    assert_eq!(quote(0, &infer(&ctx, &applied).unwrap()), pi(u(0), u(0)));
}

#[test]
fn ill_typed_is_rejected() {
    let ctx = Context::new();
    assert!(infer(&ctx, &app(u(0), u(0))).is_err());
    assert!(infer(&ctx, &v(0)).is_err());
}

#[test]
fn sigma_formation() {
    let ctx = Context::new();
    assert_eq!(quote(0, &infer(&ctx, &sigma(u(1), v(0))).unwrap()), u(2));
}

#[test]
fn dependent_pair_projects() {
    let ctx = Context::new();
    let s = sigma(u(1), v(0));
    let a = pi(u(0), u(0));
    let b = lam(u(0), v(0));
    let p = pair(s.clone(), a.clone(), b.clone());

    assert_eq!(quote(0, &infer(&ctx, &p).unwrap()), s);
    assert_eq!(quote(0, &infer(&ctx, &fst(p.clone())).unwrap()), u(1));
    assert_eq!(normalize(&fst(p.clone())), a);
    assert_eq!(quote(0, &infer(&ctx, &snd(p.clone())).unwrap()), a);
    assert_eq!(normalize(&snd(p)), b);
}

#[test]
fn ill_typed_pair_is_rejected() {
    let ctx = Context::new();
    let bad = pair(sigma(u(1), v(0)), u(5), lam(u(0), v(0)));
    assert!(infer(&ctx, &bad).is_err());
}

#[test]
fn proof_irrelevance_holds() {
    let ctx = Context::new();
    let term = lam(
        prop(),
        lam(
            pi(v(0), u(0)),
            lam(v(1), lam(v(2), lam(app(v(2), v(1)), v(0)))),
        ),
    );
    let expected = pi(
        prop(),
        pi(
            pi(v(0), u(0)),
            pi(v(1), pi(v(2), pi(app(v(2), v(1)), app(v(3), v(1))))),
        ),
    );
    assert!(check(&ctx, &term, &val(&expected)).is_ok());
}

#[test]
fn relevance_fails_in_type() {
    let ctx = Context::new();
    let term = lam(
        u(0),
        lam(
            pi(v(0), u(0)),
            lam(v(1), lam(v(2), lam(app(v(2), v(1)), v(0)))),
        ),
    );
    let expected = pi(
        u(0),
        pi(
            pi(v(0), u(0)),
            pi(v(1), pi(v(2), pi(app(v(2), v(1)), app(v(3), v(1))))),
        ),
    );
    assert!(check(&ctx, &term, &val(&expected)).is_err());
}

#[test]
fn prop_is_impredicative() {
    let ctx = Context::new();
    assert_eq!(quote(0, &infer(&ctx, &pi(prop(), v(0))).unwrap()), prop());
    assert_eq!(quote(0, &infer(&ctx, &pi(u(0), v(0))).unwrap()), u(1));
}

#[test]
fn mutual_inductive_positivity_hole() {
    let sig = Rc::new(vec![
        Inductive {
            params: vec![],
            indices: vec![],
            sort: 0,
            constructors: vec![],
        },
        Inductive {
            params: vec![],
            indices: vec![],
            sort: 1,
            constructors: vec![Constructor {
                args: vec![Term::Pi(Box::new(Term::Ind(2)), Box::new(Term::Ind(0)))],
                index_values: vec![],
            }],
        },
        Inductive {
            params: vec![],
            indices: vec![],
            sort: 1,
            constructors: vec![Constructor {
                args: vec![Term::Ind(1)],
                index_values: vec![],
            }],
        },
    ]);
    assert!(
        check_signature(&sig).is_err(),
        "non-positive mutual signature must be rejected (ADR-0172)"
    );
}

#[test]
fn audit_three_inductive_negative_cycle_rejected() {
    let sig = Rc::new(vec![
        Inductive {
            params: vec![],
            indices: vec![],
            sort: 0,
            constructors: vec![],
        },
        Inductive {
            params: vec![],
            indices: vec![],
            sort: 1,
            constructors: vec![Constructor {
                args: vec![Term::Pi(Box::new(Term::Ind(2)), Box::new(Term::Ind(0)))],
                index_values: vec![],
            }],
        },
        Inductive {
            params: vec![],
            indices: vec![],
            sort: 1,
            constructors: vec![Constructor {
                args: vec![Term::Ind(3)],
                index_values: vec![],
            }],
        },
        Inductive {
            params: vec![],
            indices: vec![],
            sort: 1,
            constructors: vec![Constructor {
                args: vec![Term::Ind(1)],
                index_values: vec![],
            }],
        },
    ]);
    assert!(
        check_signature(&sig).is_err(),
        "length-3 negative mutual cycle must be rejected (ADR-0172)"
    );
}

#[test]
fn audit_positive_mutual_cycle_accepted() {
    let sig = Rc::new(vec![
        Inductive {
            params: vec![],
            indices: vec![],
            sort: 1,
            constructors: vec![
                Constructor {
                    args: vec![],
                    index_values: vec![],
                },
                Constructor {
                    args: vec![Term::Ind(1)],
                    index_values: vec![],
                },
            ],
        },
        Inductive {
            params: vec![],
            indices: vec![],
            sort: 1,
            constructors: vec![
                Constructor {
                    args: vec![],
                    index_values: vec![],
                },
                Constructor {
                    args: vec![Term::Ind(0)],
                    index_values: vec![],
                },
            ],
        },
    ]);
    assert!(
        check_signature(&sig).is_ok(),
        "positive mutual cycle must stay accepted (no over-rejection)"
    );
}

#[test]
fn audit_sigma_over_type_is_not_prop() {
    let ctx = Context::new();
    let ty = sigma(u(0), v(0));
    let s = infer(&ctx, &ty).expect("Σ(A:Type0) A is well-formed");
    assert!(
        matches!(&*s, Value::Universe(_)),
        "Σ over a Type component must live in a Universe, not Prop"
    );
}

#[test]
fn bool_signature_is_valid() {
    assert!(check_signature(&bool_sig()).is_ok());
    assert!(check_signature(&nat_sig()).is_ok());
}

#[test]
fn bool_formation_and_intro() {
    let ctx = Context::with_sig(bool_sig());
    assert_eq!(quote(0, &infer(&ctx, &Term::Ind(0)).unwrap()), u(0));
    assert_eq!(
        quote(0, &infer(&ctx, &Term::Constr(0, 0)).unwrap()),
        Term::Ind(0)
    );
    assert_eq!(
        quote(0, &infer(&ctx, &Term::Constr(0, 1)).unwrap()),
        Term::Ind(0)
    );
}

#[test]
fn bool_recursor_type() {
    let ctx = Context::with_sig(bool_sig());
    let expected = pi(
        pi(Term::Ind(0), u(0)),
        pi(
            app(v(0), Term::Constr(0, 0)),
            pi(
                app(v(1), Term::Constr(0, 1)),
                pi(Term::Ind(0), app(v(3), v(0))),
            ),
        ),
    );
    assert_eq!(quote(0, &infer(&ctx, &Term::Rec(0, 1)).unwrap()), expected);
}

#[test]
fn bool_recursor_computes() {
    let sig = bool_sig();
    let not = lam(
        Term::Ind(0),
        app(
            app(
                app(
                    app(Term::Rec(0, 1), lam(Term::Ind(0), Term::Ind(0))),
                    Term::Constr(0, 1),
                ),
                Term::Constr(0, 0),
            ),
            v(0),
        ),
    );
    let ctx = Context::with_sig(sig.clone());
    assert_eq!(
        quote(0, &infer(&ctx, &not).unwrap()),
        pi(Term::Ind(0), Term::Ind(0))
    );
    assert_eq!(
        norm(&sig, &app(not.clone(), Term::Constr(0, 0))),
        Term::Constr(0, 1)
    );
    assert_eq!(
        norm(&sig, &app(not, Term::Constr(0, 1))),
        Term::Constr(0, 0)
    );
}

#[test]
fn nat_recursor_computes_addition() {
    let sig = nat_sig();
    let zero = Term::Constr(0, 0);
    let succ = |n: Term| app(Term::Constr(0, 1), n);
    let plus = lam(
        Term::Ind(0),
        lam(
            Term::Ind(0),
            app(
                app(
                    app(app(Term::Rec(0, 1), lam(Term::Ind(0), Term::Ind(0))), v(0)),
                    lam(Term::Ind(0), lam(Term::Ind(0), succ(v(0)))),
                ),
                v(1),
            ),
        ),
    );
    let ctx = Context::with_sig(sig.clone());
    assert_eq!(
        quote(0, &infer(&ctx, &plus).unwrap()),
        pi(Term::Ind(0), pi(Term::Ind(0), Term::Ind(0)))
    );
    let two = succ(succ(zero.clone()));
    let one = succ(zero.clone());
    let three = succ(succ(succ(zero)));
    assert_eq!(norm(&sig, &app(app(plus, two), one)), three);
}

fn nat_list_sig() -> Rc<Sig> {
    Rc::new(vec![
        Inductive {
            params: vec![],
            indices: vec![],
            sort: 1,
            constructors: vec![
                Constructor {
                    args: vec![],
                    index_values: vec![],
                },
                Constructor {
                    args: vec![Term::Ind(0)],
                    index_values: vec![],
                },
            ],
        },
        Inductive {
            params: vec![u(0)],
            indices: vec![],
            sort: 1,
            constructors: vec![
                Constructor {
                    args: vec![],
                    index_values: vec![],
                },
                Constructor {
                    args: vec![v(0), app(Term::Ind(1), v(1))],
                    index_values: vec![],
                },
            ],
        },
    ])
}

#[test]
fn parametric_list_signature_is_valid() {
    assert!(check_signature(&nat_list_sig()).is_ok());
}

#[test]
fn list_recursor_computes_length() {
    let sig = nat_list_sig();
    let zero = Term::Constr(0, 0);
    let succ = |n: Term| app(Term::Constr(0, 1), n);
    let nat = Term::Ind(0);
    let nil = |a: Term| app(Term::Constr(1, 0), a);
    let cons = |a: Term, x: Term, xs: Term| app(app(app(Term::Constr(1, 1), a), x), xs);

    let motive = lam(app(Term::Ind(1), v(1)), Term::Ind(0));
    let m_cons = lam(
        v(1),
        lam(app(Term::Ind(1), v(2)), lam(Term::Ind(0), succ(v(0)))),
    );
    let length = lam(
        u(0),
        lam(
            app(Term::Ind(1), v(0)),
            app(
                app(
                    app(app(app(Term::Rec(1, 1), v(1)), motive), zero.clone()),
                    m_cons,
                ),
                v(0),
            ),
        ),
    );

    let ctx = Context::with_sig(sig.clone());
    assert_eq!(
        quote(0, &infer(&ctx, &length).unwrap()),
        pi(u(0), pi(app(Term::Ind(1), v(0)), Term::Ind(0)))
    );

    let empty_list = nil(nat.clone());
    let one_list = cons(nat.clone(), zero.clone(), nil(nat.clone()));
    assert_eq!(
        norm(&sig, &app(app(length.clone(), nat.clone()), empty_list)),
        zero
    );
    assert_eq!(norm(&sig, &app(app(length, nat), one_list)), succ(zero));
}

#[test]
fn non_positive_inductive_is_rejected() {
    let bad = Rc::new(vec![Inductive {
        params: vec![],
        indices: vec![],
        sort: 1,
        constructors: vec![Constructor {
            args: vec![pi(Term::Ind(0), Term::Ind(0))],
            index_values: vec![],
        }],
    }]);
    assert!(check_signature(&bad).is_err());
}

fn bool_id_sig() -> Rc<Sig> {
    Rc::new(vec![
        Inductive {
            params: vec![],
            indices: vec![],
            sort: 1,
            constructors: vec![
                Constructor {
                    args: vec![],
                    index_values: vec![],
                },
                Constructor {
                    args: vec![],
                    index_values: vec![],
                },
            ],
        },
        Inductive {
            params: vec![u(0), v(0)],
            indices: vec![v(1)],
            sort: 0,
            constructors: vec![Constructor {
                args: vec![],
                index_values: vec![v(0)],
            }],
        },
    ])
}

#[test]
fn prop_id_signature_is_valid() {
    assert!(check_signature(&bool_id_sig()).is_ok());
}

#[test]
fn id_is_proof_irrelevant() {
    let sig = bool_id_sig();
    let ctx = Context::with_sig(sig.clone());
    let id_true = app(
        app(app(Term::Ind(1), Term::Ind(0)), Term::Constr(0, 1)),
        Term::Constr(0, 1),
    );
    assert_eq!(
        sort_level_of_type(&ctx, &eval(&sig, &Vec::new(), &id_true)),
        0
    );
}

#[test]
fn large_elimination_from_subsingleton_prop_computes() {
    let sig = bool_id_sig();
    let bool_ty = Term::Ind(0);
    let tru = Term::Constr(0, 1);
    let id = |a: Term, x: Term, y: Term| app(app(app(Term::Ind(1), a), x), y);
    let refl = |a: Term, x: Term| app(app(Term::Constr(1, 0), a), x);

    let motive = lam(
        bool_ty.clone(),
        lam(id(bool_ty.clone(), tru.clone(), v(0)), bool_ty.clone()),
    );
    let method = tru.clone();
    let j = app(
        app(
            app(
                app(
                    app(app(Term::Rec(1, 1), bool_ty.clone()), tru.clone()),
                    motive,
                ),
                method,
            ),
            tru.clone(),
        ),
        refl(bool_ty.clone(), tru.clone()),
    );

    let ctx = Context::with_sig(sig.clone());
    assert!(infer(&ctx, &j).is_ok());
    assert_eq!(norm(&sig, &j), tru);
}

#[test]
fn large_elimination_from_nonsubsingleton_prop_is_rejected() {
    let sig = Rc::new(vec![Inductive {
        params: vec![],
        indices: vec![],
        sort: 0,
        constructors: vec![
            Constructor {
                args: vec![],
                index_values: vec![],
            },
            Constructor {
                args: vec![],
                index_values: vec![],
            },
        ],
    }]);
    assert!(check_signature(&sig).is_ok());
    let ctx = Context::with_sig(sig);
    assert!(infer(&ctx, &Term::Rec(0, 0)).is_ok());
    assert!(infer(&ctx, &Term::Rec(0, 1)).is_err());
}

fn vec_sig() -> Rc<Sig> {
    Rc::new(vec![
        Inductive {
            params: vec![],
            indices: vec![],
            sort: 1,
            constructors: vec![
                Constructor {
                    args: vec![],
                    index_values: vec![],
                },
                Constructor {
                    args: vec![Term::Ind(0)],
                    index_values: vec![],
                },
            ],
        },
        Inductive {
            params: vec![u(0)],
            indices: vec![Term::Ind(0)],
            sort: 1,
            constructors: vec![
                Constructor {
                    args: vec![],
                    index_values: vec![Term::Constr(0, 0)],
                },
                Constructor {
                    args: vec![Term::Ind(0), v(1), app(app(Term::Ind(1), v(2)), v(1))],
                    index_values: vec![app(Term::Constr(0, 1), v(2))],
                },
            ],
        },
    ])
}

#[test]
fn vec_signature_is_valid() {
    assert!(check_signature(&vec_sig()).is_ok());
}

#[test]
fn vec_indexed_recursion_computes() {
    let sig = vec_sig();
    let nat = Term::Ind(0);
    let zero = Term::Constr(0, 0);
    let succ = |n: Term| app(Term::Constr(0, 1), n);
    let nil = |a: Term| app(Term::Constr(1, 0), a);
    let cons = |a: Term, n: Term, x: Term, xs: Term| {
        app(app(app(app(Term::Constr(1, 1), a), n), x), xs)
    };

    let motive = lam(
        nat.clone(),
        lam(app(app(Term::Ind(1), nat.clone()), v(0)), nat.clone()),
    );
    let m_nil = zero.clone();
    let m_cons = lam(
        nat.clone(),
        lam(
            nat.clone(),
            lam(
                app(app(Term::Ind(1), nat.clone()), v(1)),
                lam(nat.clone(), succ(v(0))),
            ),
        ),
    );

    let count = |n: Term, xs: Term| {
        app(
            app(
                app(
                    app(
                        app(app(Term::Rec(1, 1), nat.clone()), motive.clone()),
                        m_nil.clone(),
                    ),
                    m_cons.clone(),
                ),
                n,
            ),
            xs,
        )
    };

    let ctx = Context::with_sig(sig.clone());

    let v0 = nil(nat.clone());
    let v1 = cons(nat.clone(), zero.clone(), zero.clone(), nil(nat.clone()));
    let v2 = cons(nat.clone(), succ(zero.clone()), zero.clone(), v1.clone());

    assert!(infer(&ctx, &count(zero.clone(), v0.clone())).is_ok());
    assert_eq!(norm(&sig, &count(zero.clone(), v0)), zero.clone());
    assert_eq!(
        norm(&sig, &count(succ(zero.clone()), v1)),
        succ(zero.clone())
    );
    assert_eq!(
        norm(&sig, &count(succ(succ(zero.clone())), v2)),
        succ(succ(zero.clone()))
    );
}

#[test]
fn indexed_higher_order_recursion_is_rejected() {
    let bad = Rc::new(vec![
        Inductive {
            params: vec![],
            indices: vec![],
            sort: 1,
            constructors: vec![Constructor {
                args: vec![],
                index_values: vec![],
            }],
        },
        Inductive {
            params: vec![],
            indices: vec![Term::Ind(0)],
            sort: 1,
            constructors: vec![Constructor {
                args: vec![pi(Term::Ind(0), app(Term::Ind(1), Term::Constr(0, 0)))],
                index_values: vec![Term::Constr(0, 0)],
            }],
        },
    ]);
    assert!(check_signature(&bad).is_err());
}

fn funext_type() -> Term {
    let id = |a: Term, x: Term, y: Term| app(app(app(Term::Ind(1), a), x), y);
    pi(
        u(0),
        pi(
            pi(v(0), u(0)),
            pi(
                pi(v(1), app(v(1), v(0))),
                pi(
                    pi(v(2), app(v(2), v(0))),
                    pi(
                        pi(v(3), id(app(v(3), v(0)), app(v(2), v(0)), app(v(1), v(0)))),
                        id(pi(v(4), app(v(4), v(0))), v(2), v(1)),
                    ),
                ),
            ),
        ),
    )
}

fn propext_type() -> Term {
    pi(
        prop(),
        pi(
            prop(),
            pi(
                pi(v(1), v(1)),
                pi(
                    pi(v(1), v(3)),
                    app(app(app(Term::Ind(1), prop()), v(3)), v(2)),
                ),
            ),
        ),
    )
}

#[test]
fn axiom_must_be_a_proposition() {
    let sig = bool_id_sig();
    let prop_axiom = Rc::new(vec![app(
        app(app(Term::Ind(1), Term::Ind(0)), Term::Constr(0, 1)),
        Term::Constr(0, 1),
    )]);
    assert!(check_axioms(&sig, &prop_axiom).is_ok());
    let type_axiom = Rc::new(vec![Term::Ind(0)]);
    assert!(check_axioms(&sig, &type_axiom).is_err());
}

#[test]
fn funext_and_propext_are_propositions() {
    let sig = bool_id_sig();
    let axioms = Rc::new(vec![funext_type(), propext_type()]);
    assert!(check_axioms(&sig, &axioms).is_ok());
    let ctx = Context::with_sig_and_axioms(sig.clone(), axioms);
    assert_eq!(
        quote(0, &infer(&ctx, &Term::Axiom(0)).unwrap()),
        funext_type()
    );
    assert_eq!(
        quote(0, &infer(&ctx, &Term::Axiom(1)).unwrap()),
        propext_type()
    );
}

#[test]
fn funext_application_is_an_opaque_proof() {
    let sig = bool_id_sig();
    let axioms = Rc::new(vec![funext_type()]);
    let ctx = Context::with_sig_and_axioms(sig.clone(), axioms);

    let booly = Term::Ind(0);
    let b = lam(booly.clone(), booly.clone());
    let idf = lam(booly.clone(), v(0));
    let h = lam(
        booly.clone(),
        app(app(Term::Constr(1, 0), booly.clone()), v(0)),
    );
    let proof = app(
        app(
            app(
                app(app(Term::Axiom(0), booly.clone()), b.clone()),
                idf.clone(),
            ),
            idf.clone(),
        ),
        h.clone(),
    );

    let expected_ty = app(
        app(
            app(Term::Ind(1), pi(booly.clone(), booly.clone())),
            idf.clone(),
        ),
        idf.clone(),
    );
    assert_eq!(quote(0, &infer(&ctx, &proof).unwrap()), expected_ty);

    let expected_nf = app(
        app(
            app(app(app(Term::Axiom(0), booly.clone()), b), idf.clone()),
            idf.clone(),
        ),
        h,
    );
    assert_eq!(norm(&sig, &proof), expected_nf);

    let refl_proof = app(
        app(Term::Constr(1, 0), pi(booly.clone(), booly.clone())),
        idf,
    );
    assert!(check(&ctx, &refl_proof, &infer(&ctx, &proof).unwrap()).is_ok());
}

#[test]
fn erase_boxes_types_and_type_schemes() {
    let ctx = Context::new();
    assert_eq!(erase(&ctx, &u(0)).unwrap(), ETerm::Box);
    assert_eq!(erase(&ctx, &prop()).unwrap(), ETerm::Box);
    assert_eq!(erase(&ctx, &pi(u(0), v(0))).unwrap(), ETerm::Box);

    let sig = nat_sig();
    let nctx = Context::with_sig(sig);
    assert_eq!(erase(&nctx, &Term::Ind(0)).unwrap(), ETerm::Box);
    let type_scheme = lam(Term::Ind(0), Term::Ind(0));
    assert_eq!(erase(&nctx, &type_scheme).unwrap(), ETerm::Box);
}

#[test]
fn erase_keeps_informative_skeleton() {
    let ctx = Context::new();
    let poly_id = lam(u(0), lam(v(0), v(0)));
    assert_eq!(
        erase(&ctx, &poly_id).unwrap(),
        ETerm::Lam(Box::new(ETerm::Lam(Box::new(ETerm::Var(0)))))
    );

    let sig = nat_sig();
    let nctx = Context::with_sig(sig);
    let two = app(
        Term::Constr(0, 1),
        app(Term::Constr(0, 1), Term::Constr(0, 0)),
    );
    assert_eq!(
        erase(&nctx, &two).unwrap(),
        ETerm::App(
            Box::new(ETerm::Constr(0, 1)),
            Box::new(ETerm::App(
                Box::new(ETerm::Constr(0, 1)),
                Box::new(ETerm::Constr(0, 0))
            ))
        )
    );
}

#[test]
fn erase_boxes_constructor_type_arguments() {
    let sig = vec_sig();
    let ctx = Context::with_sig(sig);
    let nat = Term::Ind(0);
    let zero = Term::Constr(0, 0);
    let nil = app(Term::Constr(1, 0), nat.clone());
    assert_eq!(
        erase(&ctx, &nil).unwrap(),
        ETerm::App(Box::new(ETerm::Constr(1, 0)), Box::new(ETerm::Box))
    );
    let one = app(
        app(
            app(app(Term::Constr(1, 1), nat.clone()), zero.clone()),
            zero.clone(),
        ),
        nil.clone(),
    );
    assert_eq!(
        erase(&ctx, &one).unwrap(),
        ETerm::App(
            Box::new(ETerm::App(
                Box::new(ETerm::App(
                    Box::new(ETerm::App(
                        Box::new(ETerm::Constr(1, 1)),
                        Box::new(ETerm::Box)
                    )),
                    Box::new(ETerm::Constr(0, 0))
                )),
                Box::new(ETerm::Constr(0, 0))
            )),
            Box::new(ETerm::App(
                Box::new(ETerm::Constr(1, 0)),
                Box::new(ETerm::Box)
            ))
        )
    );
}

#[test]
fn erase_collapses_prop_proofs_to_box() {
    let sig = bool_id_sig();
    let axioms = Rc::new(vec![funext_type()]);
    let ctx = Context::with_sig_and_axioms(sig.clone(), axioms);
    let booly = Term::Ind(0);
    let b = lam(booly.clone(), booly.clone());
    let idf = lam(booly.clone(), v(0));
    let h = lam(
        booly.clone(),
        app(app(Term::Constr(1, 0), booly.clone()), v(0)),
    );
    let proof = app(
        app(
            app(app(app(Term::Axiom(0), booly.clone()), b), idf.clone()),
            idf.clone(),
        ),
        h,
    );
    assert_eq!(erase(&ctx, &proof).unwrap(), ETerm::Box);

    let refl = app(app(Term::Constr(1, 0), booly.clone()), Term::Constr(0, 1));
    assert_eq!(erase(&ctx, &refl).unwrap(), ETerm::Box);
}

#[test]
fn erasure_preserves_first_order_nat() {
    let sig = nat_sig();
    let ctx = Context::with_sig(sig.clone());
    let zero = Term::Constr(0, 0);
    let succ = |n: Term| app(Term::Constr(0, 1), n);
    let plus = lam(
        Term::Ind(0),
        lam(
            Term::Ind(0),
            app(
                app(
                    app(app(Term::Rec(0, 1), lam(Term::Ind(0), Term::Ind(0))), v(0)),
                    lam(Term::Ind(0), lam(Term::Ind(0), succ(v(0)))),
                ),
                v(1),
            ),
        ),
    );
    let prog = app(app(plus, succ(succ(zero.clone()))), succ(zero.clone()));
    let lhs = enorm(&sig, &erase(&ctx, &prog).unwrap());
    let rhs = erase(&ctx, &norm(&sig, &prog)).unwrap();
    assert_eq!(lhs, rhs);
    assert_eq!(lhs, erase(&ctx, &succ(succ(succ(zero)))).unwrap());
}

#[test]
fn erasure_preserves_first_order_list() {
    let sig = nat_list_sig();
    let ctx = Context::with_sig(sig.clone());
    let zero = Term::Constr(0, 0);
    let succ = |n: Term| app(Term::Constr(0, 1), n);
    let nat = Term::Ind(0);
    let nil = |a: Term| app(Term::Constr(1, 0), a);
    let cons = |a: Term, x: Term, xs: Term| app(app(app(Term::Constr(1, 1), a), x), xs);
    let motive = lam(app(Term::Ind(1), v(1)), Term::Ind(0));
    let m_cons = lam(
        v(1),
        lam(app(Term::Ind(1), v(2)), lam(Term::Ind(0), succ(v(0)))),
    );
    let length = lam(
        u(0),
        lam(
            app(Term::Ind(1), v(0)),
            app(
                app(
                    app(app(app(Term::Rec(1, 1), v(1)), motive), zero.clone()),
                    m_cons,
                ),
                v(0),
            ),
        ),
    );
    let one_list = cons(nat.clone(), zero.clone(), nil(nat.clone()));
    let prog = app(app(length, nat.clone()), one_list);
    let lhs = enorm(&sig, &erase(&ctx, &prog).unwrap());
    let rhs = erase(&ctx, &norm(&sig, &prog)).unwrap();
    assert_eq!(lhs, rhs);
    assert_eq!(lhs, erase(&ctx, &succ(zero)).unwrap());
}

#[test]
fn erasure_preserves_first_order_vec() {
    let sig = vec_sig();
    let ctx = Context::with_sig(sig.clone());
    let nat = Term::Ind(0);
    let zero = Term::Constr(0, 0);
    let succ = |n: Term| app(Term::Constr(0, 1), n);
    let nil = |a: Term| app(Term::Constr(1, 0), a);
    let cons = |a: Term, n: Term, x: Term, xs: Term| {
        app(app(app(app(Term::Constr(1, 1), a), n), x), xs)
    };
    let motive = lam(
        nat.clone(),
        lam(app(app(Term::Ind(1), nat.clone()), v(0)), nat.clone()),
    );
    let m_cons = lam(
        nat.clone(),
        lam(
            nat.clone(),
            lam(
                app(app(Term::Ind(1), nat.clone()), v(1)),
                lam(nat.clone(), succ(v(0))),
            ),
        ),
    );
    let count = |n: Term, xs: Term| {
        app(
            app(
                app(
                    app(
                        app(app(Term::Rec(1, 1), nat.clone()), motive.clone()),
                        zero.clone(),
                    ),
                    m_cons.clone(),
                ),
                n,
            ),
            xs,
        )
    };
    let v1 = cons(nat.clone(), zero.clone(), zero.clone(), nil(nat.clone()));
    let v2 = cons(nat.clone(), succ(zero.clone()), zero.clone(), v1);
    let prog = count(succ(succ(zero.clone())), v2);
    let lhs = enorm(&sig, &erase(&ctx, &prog).unwrap());
    let rhs = erase(&ctx, &norm(&sig, &prog)).unwrap();
    assert_eq!(lhs, rhs);
    assert_eq!(lhs, erase(&ctx, &succ(succ(zero))).unwrap());
}

#[test]
fn erasure_computes_through_boxed_proof() {
    let sig = bool_id_sig();
    let ctx = Context::with_sig(sig.clone());
    let bool_ty = Term::Ind(0);
    let tru = Term::Constr(0, 1);
    let id = |a: Term, x: Term, y: Term| app(app(app(Term::Ind(1), a), x), y);
    let refl = |a: Term, x: Term| app(app(Term::Constr(1, 0), a), x);
    let motive = lam(
        bool_ty.clone(),
        lam(id(bool_ty.clone(), tru.clone(), v(0)), bool_ty.clone()),
    );
    let prog = app(
        app(
            app(
                app(
                    app(app(Term::Rec(1, 1), bool_ty.clone()), tru.clone()),
                    motive,
                ),
                tru.clone(),
            ),
            tru.clone(),
        ),
        refl(bool_ty.clone(), tru.clone()),
    );
    let erased = erase(&ctx, &prog).unwrap();
    assert_ne!(erased, ETerm::Box);
    let lhs = enorm(&sig, &erased);
    let rhs = erase(&ctx, &norm(&sig, &prog)).unwrap();
    assert_eq!(lhs, rhs);
    assert_eq!(lhs, ETerm::Constr(0, 1));
}

#[test]
fn every_inductive_of_a_checked_signature_has_a_type() {
    let sig = vec_sig();
    assert!(check_signature(&sig).is_ok());
    let ctx = Context::with_sig(sig.clone());
    for i in 0..sig.len() {
        assert!(infer(&ctx, &Term::Ind(i)).is_ok());
    }
}
