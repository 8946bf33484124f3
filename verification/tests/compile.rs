use oxo_kernel::compile::{decode_to_eterm, encode, run, Branch, Expr, Func, Op, Program};
use oxo_kernel::{erase, Constructor, Context, ETerm, Inductive, Sig, Term};
use std::rc::Rc;

fn compile(sig: Rc<Sig>, e: &ETerm) -> (Program, usize) {
    oxo_kernel::compile::compile(sig, e).expect("first-order program compiles")
}

fn enorm(sig: &Rc<Sig>, term: &ETerm) -> ETerm {
    oxo_kernel::enorm(sig, term).expect("erased normalisation succeeds")
}


fn v(i: usize) -> Term {
    Term::Var(i)
}
fn lam(a: Term, t: Term) -> Term {
    Term::Lam(Box::new(a), Box::new(t))
}
fn app(f: Term, x: Term) -> Term {
    Term::App(Box::new(f), Box::new(x))
}
fn lett(op: Op, rest: Expr) -> Expr {
    Expr::Let(op, Box::new(rest))
}

fn nat_sig() -> Rc<Sig> {
    Rc::new(vec![Inductive {
        params: vec![],
        indices: vec![],
        sort: 1,
        constructors: vec![
            Constructor {
                args: vec![],
                index_values: vec![],
            },
            Constructor {
                args: vec![Term::Ind(0)],
                index_values: vec![],
            },
        ],
    }])
}

fn bool_sig() -> Rc<Sig> {
    Rc::new(vec![Inductive {
        params: vec![],
        indices: vec![],
        sort: 1,
        constructors: vec![
            Constructor {
                args: vec![],
                index_values: vec![],
            },
            Constructor {
                args: vec![],
                index_values: vec![],
            },
        ],
    }])
}

#[test]
fn machine_runs_lowered_nat_plus_against_evaluator() {
    let sig = nat_sig();
    let nat = 0;
    let rec_plus = Func {
        nparams: 3,
        body: Expr::Case(
            nat,
            0,
            vec![
                Branch {
                    nbind: 0,
                    body: Expr::Ret(1),
                },
                Branch {
                    nbind: 1,
                    body: lett(
                        Op::Call(0, vec![3, 1, 2]),
                        lett(Op::Constr(nat, 1, vec![4]), Expr::Ret(5)),
                    ),
                },
            ],
        ),
    };
    let plus = Func {
        nparams: 2,
        body: lett(Op::Call(0, vec![1, 0, 1]), Expr::Ret(2)),
    };
    let main = Func {
        nparams: 0,
        body: lett(
            Op::Constr(nat, 0, vec![]),
            lett(
                Op::Constr(nat, 1, vec![0]),
                lett(
                    Op::Constr(nat, 1, vec![1]),
                    lett(
                        Op::Constr(nat, 1, vec![0]),
                        lett(Op::Call(1, vec![2, 3]), Expr::Ret(4)),
                    ),
                ),
            ),
        ),
    };
    let prog = Program {
        funcs: vec![rec_plus, plus, main],
        sig: sig.clone(),
    };
    let result = run(&prog, 2, &[], 100_000).unwrap();
    assert_eq!(result, 3);

    let zero = Term::Constr(0, 0);
    let succ = |n: Term| app(Term::Constr(0, 1), n);
    let plus_src = lam(
        Term::Ind(0),
        lam(
            Term::Ind(0),
            app(
                app(
                    app(app(Term::Rec(0, 1), lam(Term::Ind(0), Term::Ind(0))), v(0)),
                    lam(Term::Ind(0), lam(Term::Ind(0), succ(v(0)))),
                ),
                v(1),
            ),
        ),
    );
    let src = app(app(plus_src, succ(succ(zero.clone()))), succ(zero));
    let ctx = Context::with_sig(sig.clone());
    let expected = enorm(&sig, &erase(&ctx, &src).unwrap());
    assert_eq!(decode_to_eterm(&sig, nat, result), expected);
}

#[test]
fn machine_runs_lowered_bool_not() {
    let sig = bool_sig();
    let boolean = 0;
    let rec_not = Func {
        nparams: 1,
        body: Expr::Case(
            boolean,
            0,
            vec![
                Branch {
                    nbind: 0,
                    body: lett(Op::Constr(boolean, 1, vec![]), Expr::Ret(1)),
                },
                Branch {
                    nbind: 0,
                    body: lett(Op::Constr(boolean, 0, vec![]), Expr::Ret(1)),
                },
            ],
        ),
    };
    let prog = Program {
        funcs: vec![rec_not],
        sig: sig.clone(),
    };
    let tru = encode(&sig, boolean, 1, &[]);
    let fls = encode(&sig, boolean, 0, &[]);

    let not_true = run(&prog, 0, &[tru], 1000).unwrap();
    assert_eq!(not_true, fls);
    assert_eq!(
        decode_to_eterm(&sig, boolean, not_true),
        ETerm::Constr(0, 0)
    );

    let not_false = run(&prog, 0, &[fls], 1000).unwrap();
    assert_eq!(not_false, tru);
    assert_eq!(
        decode_to_eterm(&sig, boolean, not_false),
        ETerm::Constr(0, 1)
    );
}

fn nat_bool_sig() -> Rc<Sig> {
    Rc::new(vec![
        Inductive {
            params: vec![],
            indices: vec![],
            sort: 1,
            constructors: vec![
                Constructor {
                    args: vec![],
                    index_values: vec![],
                },
                Constructor {
                    args: vec![Term::Ind(0)],
                    index_values: vec![],
                },
            ],
        },
        Inductive {
            params: vec![],
            indices: vec![],
            sort: 1,
            constructors: vec![
                Constructor {
                    args: vec![],
                    index_values: vec![],
                },
                Constructor {
                    args: vec![],
                    index_values: vec![],
                },
            ],
        },
    ])
}

fn nat_lit(mut k: usize) -> Term {
    let mut t = Term::Constr(0, 0);
    while k > 0 {
        t = app(Term::Constr(0, 1), t);
        k -= 1;
    }
    t
}

#[test]
fn compiles_nat_plus_against_evaluator() {
    let sig = nat_sig();
    let ctx = Context::with_sig(sig.clone());
    let plus_src = lam(
        Term::Ind(0),
        lam(
            Term::Ind(0),
            app(
                app(
                    app(app(Term::Rec(0, 1), lam(Term::Ind(0), Term::Ind(0))), v(0)),
                    lam(
                        Term::Ind(0),
                        lam(Term::Ind(0), app(Term::Constr(0, 1), v(0))),
                    ),
                ),
                v(1),
            ),
        ),
    );
    let (prog, entry) = compile(sig.clone(), &erase(&ctx, &plus_src).unwrap());
    let got = run(&prog, entry, &[2, 1], 1_000_000).unwrap();
    assert_eq!(got, 3);
    let applied = app(app(plus_src, nat_lit(2)), nat_lit(1));
    let want = enorm(&sig, &erase(&ctx, &applied).unwrap());
    assert_eq!(decode_to_eterm(&sig, 0, got), want);
}

#[test]
fn straightline_constr_program_structure_matches_logic_reflection() {
    let sig = nat_sig();
    let s = |x: ETerm| ETerm::App(Box::new(ETerm::Constr(0, 1)), Box::new(x));
    let e2 = ETerm::Lam(Box::new(s(ETerm::Var(0))));
    let (prog, entry) = compile(sig.clone(), &e2);
    assert_eq!(entry, 0);
    assert_eq!(prog.funcs.len(), 1);
    assert_eq!(prog.funcs[0].nparams, 1);
    match &prog.funcs[0].body {
        Expr::Let(Op::Constr(i, j, fields), rest) => {
            assert_eq!((*i, *j), (0, 1));
            assert_eq!(fields.as_slice(), [0]);
            assert!(matches!(&**rest, Expr::Ret(1)));
        }
        _ => panic!("unexpected e2 body"),
    }
    let e3 = ETerm::Lam(Box::new(s(s(ETerm::Var(0)))));
    let (prog3, _) = compile(sig, &e3);
    match &prog3.funcs[0].body {
        Expr::Let(Op::Constr(_, _, f0), r0) => {
            assert_eq!(f0.as_slice(), [0]);
            match &**r0 {
                Expr::Let(Op::Constr(_, _, f1), r1) => {
                    assert_eq!(f1.as_slice(), [1]);
                    assert!(matches!(&**r1, Expr::Ret(2)));
                }
                _ => panic!("unexpected e3 inner"),
            }
        }
        _ => panic!("unexpected e3 body"),
    }
}

#[test]
fn rec_identity_program_structure_matches_logic_reflection() {
    let sig = nat_sig();
    let s = |x: ETerm| ETerm::App(Box::new(ETerm::Constr(0, 1)), Box::new(x));
    let step = ETerm::Lam(Box::new(ETerm::Lam(Box::new(s(ETerm::Var(0))))));
    let body = ETerm::App(
        Box::new(ETerm::App(
            Box::new(ETerm::App(
                Box::new(ETerm::App(Box::new(ETerm::Rec(0)), Box::new(ETerm::Box))),
                Box::new(ETerm::Constr(0, 0)),
            )),
            Box::new(step),
        )),
        Box::new(ETerm::Var(0)),
    );
    let (prog, entry) = compile(sig, &ETerm::Lam(Box::new(body)));
    assert_eq!(entry, 1);
    assert_eq!(prog.funcs.len(), 2);
    assert_eq!(prog.funcs[1].nparams, 1);
    match &prog.funcs[1].body {
        Expr::Let(Op::Call(f, a), r) => {
            assert_eq!(*f, 0);
            assert_eq!(a.as_slice(), [0, 0]);
            assert!(matches!(&**r, Expr::Ret(1)));
        }
        _ => panic!("entry body"),
    }
    assert_eq!(prog.funcs[0].nparams, 2);
    match &prog.funcs[0].body {
        Expr::Case(i, scrut, branches) => {
            assert_eq!((*i, *scrut), (0, 1));
            assert_eq!(branches.len(), 2);
            assert_eq!(branches[0].nbind, 0);
            match &branches[0].body {
                Expr::Let(Op::Constr(_, 0, f), r) => {
                    assert!(f.is_empty());
                    assert!(matches!(&**r, Expr::Ret(2)));
                }
                _ => panic!("Z branch"),
            }
            assert_eq!(branches[1].nbind, 1);
            match &branches[1].body {
                Expr::Let(Op::Call(f, a), r0) => {
                    assert_eq!(*f, 0);
                    assert_eq!(a.as_slice(), [0, 2]);
                    match &**r0 {
                        Expr::Let(Op::Constr(_, 1, fl), r1) => {
                            assert_eq!(fl.as_slice(), [3]);
                            assert!(matches!(&**r1, Expr::Ret(4)));
                        }
                        _ => panic!("S inner"),
                    }
                }
                _ => panic!("S branch"),
            }
        }
        _ => panic!("rec body"),
    }

    let plus_body = ETerm::App(
        Box::new(ETerm::App(
            Box::new(ETerm::App(
                Box::new(ETerm::App(Box::new(ETerm::Rec(0)), Box::new(ETerm::Box))),
                Box::new(ETerm::Var(1)),
            )),
            Box::new(ETerm::Lam(Box::new(ETerm::Lam(Box::new(s(ETerm::Var(0)))))))),
        ),
        Box::new(ETerm::Var(0)),
    );
    let plus = ETerm::Lam(Box::new(ETerm::Lam(Box::new(plus_body))));
    let (pp, pe) = compile(nat_sig(), &plus);
    assert_eq!(pe, 1);
    assert_eq!(pp.funcs[1].nparams, 2);
    assert!(matches!(
        &pp.funcs[1].body,
        Expr::Let(Op::Call(0, a), r)
            if a.as_slice() == [0, 1, 1] && matches!(&**r, Expr::Ret(2))
    ));
    assert_eq!(pp.funcs[0].nparams, 3);
    match &pp.funcs[0].body {
        Expr::Case(0, 2, brs) => {
            assert!(matches!(&brs[0].body, Expr::Ret(0)) && brs[0].nbind == 0);
            assert_eq!(brs[1].nbind, 1);
            match &brs[1].body {
                Expr::Let(Op::Call(0, a), r0) => {
                    assert_eq!(a.as_slice(), [0, 1, 3]);
                    assert!(matches!(&**r0,
                        Expr::Let(Op::Constr(_, 1, fl), r1)
                            if fl.as_slice() == [4] && matches!(&**r1, Expr::Ret(5))));
                }
                _ => panic!("plus S branch"),
            }
        }
        _ => panic!("plus rec body"),
    }
}

#[test]
fn compiles_bool_not_against_evaluator() {
    let sig = bool_sig();
    let ctx = Context::with_sig(sig.clone());
    let not_src = lam(
        Term::Ind(0),
        app(
            app(
                app(
                    app(Term::Rec(0, 1), lam(Term::Ind(0), Term::Ind(0))),
                    Term::Constr(0, 1),
                ),
                Term::Constr(0, 0),
            ),
            v(0),
        ),
    );
    let (prog, entry) = compile(sig.clone(), &erase(&ctx, &not_src).unwrap());
    let tru = encode(&sig, 0, 1, &[]);
    let fls = encode(&sig, 0, 0, &[]);
    let got_t = run(&prog, entry, &[tru], 1000).unwrap();
    let got_f = run(&prog, entry, &[fls], 1000).unwrap();
    assert_eq!(
        decode_to_eterm(&sig, 0, got_t),
        enorm(
            &sig,
            &erase(&ctx, &app(not_src.clone(), Term::Constr(0, 1))).unwrap()
        )
    );
    assert_eq!(
        decode_to_eterm(&sig, 0, got_f),
        enorm(
            &sig,
            &erase(&ctx, &app(not_src, Term::Constr(0, 0))).unwrap()
        )
    );
}

#[test]
fn compiles_even_via_nested_recursors() {
    let sig = nat_bool_sig();
    let ctx = Context::with_sig(sig.clone());
    let not1 = lam(
        Term::Ind(1),
        app(
            app(
                app(
                    app(Term::Rec(1, 1), lam(Term::Ind(1), Term::Ind(1))),
                    Term::Constr(1, 1),
                ),
                Term::Constr(1, 0),
            ),
            v(0),
        ),
    );
    let even_src = lam(
        Term::Ind(0),
        app(
            app(
                app(
                    app(Term::Rec(0, 1), lam(Term::Ind(0), Term::Ind(1))),
                    Term::Constr(1, 1),
                ),
                lam(Term::Ind(0), lam(Term::Ind(1), app(not1, v(0)))),
            ),
            v(0),
        ),
    );
    let (prog, entry) = compile(sig.clone(), &erase(&ctx, &even_src).unwrap());
    let got4 = run(&prog, entry, &[4], 1_000_000).unwrap();
    let got3 = run(&prog, entry, &[3], 1_000_000).unwrap();
    assert_eq!(
        decode_to_eterm(&sig, 1, got4),
        enorm(
            &sig,
            &erase(&ctx, &app(even_src.clone(), nat_lit(4))).unwrap()
        )
    );
    assert_eq!(
        decode_to_eterm(&sig, 1, got3),
        enorm(&sig, &erase(&ctx, &app(even_src, nat_lit(3))).unwrap())
    );
    assert_eq!(decode_to_eterm(&sig, 1, got4), ETerm::Constr(1, 1));
    assert_eq!(decode_to_eterm(&sig, 1, got3), ETerm::Constr(1, 0));
}

struct Rng(u64);

impl Rng {
    fn bits(&mut self) -> u64 {
        let mut x = self.0;
        x ^= x << 13;
        x ^= x >> 7;
        x ^= x << 17;
        self.0 = x;
        x
    }
    fn below(&mut self, n: u64) -> u64 {
        self.bits() % n
    }
}

#[derive(Clone, Copy, PartialEq)]
enum Ty {
    Nat,
    Bool,
}

fn ty_term(t: Ty) -> Term {
    match t {
        Ty::Nat => Term::Ind(0),
        Ty::Bool => Term::Ind(1),
    }
}

fn pick_var(ty: Ty, ctx: &[Ty], rng: &mut Rng) -> Option<Term> {
    let cands: Vec<usize> = (0..ctx.len())
        .filter(|&i| ctx[ctx.len() - 1 - i] == ty)
        .collect();
    if cands.is_empty() {
        None
    } else {
        Some(Term::Var(cands[rng.below(cands.len() as u64) as usize]))
    }
}

fn leaf(ty: Ty, ctx: &[Ty], rng: &mut Rng) -> Term {
    if rng.below(2) == 0 {
        if let Some(v) = pick_var(ty, ctx, rng) {
            return v;
        }
    }
    match ty {
        Ty::Nat => nat_lit(rng.below(3) as usize),
        Ty::Bool => Term::Constr(1, rng.below(2) as usize),
    }
}

fn gen_nat_rec(ty: Ty, ctx: &mut Vec<Ty>, depth: usize, rng: &mut Rng) -> Term {
    let base = gen(ty, ctx, depth - 1, rng);
    ctx.push(Ty::Nat);
    ctx.push(ty);
    let step = gen(ty, ctx, depth - 1, rng);
    ctx.pop();
    ctx.pop();
    let major = nat_lit(rng.below(3) as usize);
    app(
        app(
            app(app(Term::Rec(0, 1), lam(Term::Ind(0), ty_term(ty))), base),
            lam(Term::Ind(0), lam(ty_term(ty), step)),
        ),
        major,
    )
}

fn gen_bool_rec(ty: Ty, ctx: &mut Vec<Ty>, depth: usize, rng: &mut Rng) -> Term {
    let ef = gen(ty, ctx, depth - 1, rng);
    let et = gen(ty, ctx, depth - 1, rng);
    let major = gen(Ty::Bool, ctx, depth - 1, rng);
    app(
        app(
            app(app(Term::Rec(1, 1), lam(Term::Ind(1), ty_term(ty))), ef),
            et,
        ),
        major,
    )
}

fn gen(ty: Ty, ctx: &mut Vec<Ty>, depth: usize, rng: &mut Rng) -> Term {
    if depth == 0 || rng.below(3) == 0 {
        return leaf(ty, ctx, rng);
    }
    match ty {
        Ty::Nat => match rng.below(3) {
            0 => app(Term::Constr(0, 1), gen(Ty::Nat, ctx, depth - 1, rng)),
            1 => gen_nat_rec(ty, ctx, depth, rng),
            _ => gen_bool_rec(ty, ctx, depth, rng),
        },
        Ty::Bool => match rng.below(2) {
            0 => gen_nat_rec(ty, ctx, depth, rng),
            _ => gen_bool_rec(ty, ctx, depth, rng),
        },
    }
}

#[test]
fn compiler_matches_evaluator_on_random_first_order_programs() {
    let sig = nat_bool_sig();
    let ctx = Context::with_sig(sig.clone());
    let mut rng = Rng(0x9E37_79B9_7F4A_7C15);
    for _ in 0..3000 {
        let ty = if rng.below(2) == 0 { Ty::Nat } else { Ty::Bool };
        let mut tctx = Vec::new();
        let t = gen(ty, &mut tctx, 4, &mut rng);
        let e = erase(&ctx, &t).unwrap();
        let (prog, entry) = compile(sig.clone(), &e);
        let i = if ty == Ty::Nat { 0 } else { 1 };
        let got = run(&prog, entry, &[], 50_000_000).unwrap();
        assert_eq!(decode_to_eterm(&sig, i, got), enorm(&sig, &e));
    }
}

#[test]
fn representable_values_decode_back() {
    let nat = nat_sig();
    let five = encode(&nat, 0, 1, &[4]);
    assert_eq!(five, 5);
    let (tag, fields) = oxo_kernel::compile::decode(&nat, 0, five);
    assert_eq!(tag, 1);
    assert_eq!(fields, vec![4]);
    let zero = encode(&nat, 0, 0, &[]);
    assert_eq!(oxo_kernel::compile::decode(&nat, 0, zero), (0, vec![]));
    let boolean = bool_sig();
    let t = encode(&boolean, 0, 1, &[]);
    assert_eq!(oxo_kernel::compile::decode(&boolean, 0, t), (1, vec![]));
}

#[test]
fn more_fuel_keeps_a_finished_reference_run() {
    let sig = nat_sig();
    let main = Func {
        nparams: 0,
        body: lett(
            Op::Constr(0, 0, vec![]),
            lett(Op::Constr(0, 1, vec![0]), Expr::Ret(1)),
        ),
    };
    let prog = Program { funcs: vec![main], sig };
    let short = run(&prog, 0, &[], 10).unwrap();
    let long = run(&prog, 0, &[], 10_000).unwrap();
    assert_eq!(short, 1);
    assert_eq!(short, long);
    assert!(run(&prog, 0, &[], 1).is_err());
}

#[test]
fn beta_redex_binds_argument_slots() {
    // (λx. S x) Z compiles to: Z in slot 0, then S applied to slot 0.
    let sig = nat_sig();
    let e = ETerm::App(
        Box::new(ETerm::Lam(Box::new(ETerm::App(
            Box::new(ETerm::Constr(0, 1)),
            Box::new(ETerm::Var(0)),
        )))),
        Box::new(ETerm::Constr(0, 0)),
    );
    let (prog, entry) = compile(sig, &e);
    assert_eq!(entry, 0);
    assert_eq!(prog.funcs.len(), 1);
    assert_eq!(prog.funcs[0].nparams, 0);
    match &prog.funcs[0].body {
        Expr::Let(Op::Constr(0, 0, fs0), rest) => {
            assert!(fs0.is_empty());
            match &**rest {
                Expr::Let(Op::Constr(0, 1, fs1), last) => {
                    assert_eq!(fs1, &vec![0]);
                    assert!(matches!(&**last, Expr::Ret(1)));
                }
                _ => panic!("expected the successor"),
            }
        }
        _ => panic!("expected the zero first"),
    }
    assert_eq!(run(&prog, entry, &[], 100).unwrap(), 1);
}

#[test]
fn terms_outside_the_first_order_fragment_do_not_compile() {
    let sig = nat_sig();
    let pair = ETerm::Pair(Box::new(ETerm::Constr(0, 0)), Box::new(ETerm::Constr(0, 0)));
    assert!(oxo_kernel::compile::compile(sig.clone(), &pair).is_none());
    let unbound = ETerm::Lam(Box::new(ETerm::Var(3)));
    assert!(oxo_kernel::compile::compile(sig.clone(), &unbound).is_none());
    let partial_redex = ETerm::App(
        Box::new(ETerm::Lam(Box::new(ETerm::Lam(Box::new(ETerm::Var(0)))))),
        Box::new(ETerm::Constr(0, 0)),
    );
    assert!(oxo_kernel::compile::compile(sig, &partial_redex).is_none());
}

fn calls_match(e: &Expr, funcs: &[Func]) -> bool {
    match e {
        Expr::Ret(_) => true,
        Expr::Let(Op::Call(f, args), rest) => {
            *f < funcs.len() && args.len() == funcs[*f].nparams && calls_match(rest, funcs)
        }
        Expr::Let(Op::Constr(..), rest) => calls_match(rest, funcs),
        Expr::Case(_, _, bs) => bs.iter().all(|b| calls_match(&b.body, funcs)),
    }
}

fn slot_defined(s: usize, n: usize) -> bool {
    s < n || s == usize::MAX
}

fn slots_defined(e: &Expr, n: usize) -> bool {
    match e {
        Expr::Ret(s) => slot_defined(*s, n),
        Expr::Let(Op::Constr(_, _, fs), rest) | Expr::Let(Op::Call(_, fs), rest) => {
            fs.iter().all(|s| slot_defined(*s, n)) && slots_defined(rest, n + 1)
        }
        Expr::Case(_, scrut, bs) => {
            slot_defined(*scrut, n) && bs.iter().all(|b| slots_defined(&b.body, n + b.nbind))
        }
    }
}

#[test]
fn nested_recursors_call_existing_functions_with_their_arity() {
    let sig = nat_bool_sig();
    let ctx = Context::with_sig(sig.clone());
    let not1 = lam(
        Term::Ind(1),
        app(
            app(
                app(
                    app(Term::Rec(1, 1), lam(Term::Ind(1), Term::Ind(1))),
                    Term::Constr(1, 1),
                ),
                Term::Constr(1, 0),
            ),
            v(0),
        ),
    );
    let even_src = lam(
        Term::Ind(0),
        app(
            app(
                app(
                    app(Term::Rec(0, 1), lam(Term::Ind(0), Term::Ind(1))),
                    Term::Constr(1, 1),
                ),
                lam(Term::Ind(0), lam(Term::Ind(1), app(not1, v(0)))),
            ),
            v(0),
        ),
    );
    let (prog, entry) = compile(sig, &erase(&ctx, &even_src).unwrap());
    assert_eq!(prog.funcs.len(), 3);
    assert_eq!(entry, 2);
    for f in &prog.funcs {
        assert!(calls_match(&f.body, &prog.funcs));
        assert!(slots_defined(&f.body, f.nparams));
    }
}

#[test]
fn a_value_compiles_runs_back_and_normalises_to_itself() {
    let sig = nat_sig();
    let three = decode_to_eterm(&sig, 0, 3);
    let (prog, entry) = compile(sig.clone(), &three);
    assert_eq!(run(&prog, entry, &[], 5).unwrap(), 3);
    assert_eq!(enorm(&sig, &three), three);
    let boolean = bool_sig();
    let t = decode_to_eterm(&boolean, 0, 1);
    let (prog, entry) = compile(boolean.clone(), &t);
    assert_eq!(run(&prog, entry, &[], 3).unwrap(), 1);
    assert_eq!(enorm(&boolean, &t), t);
}

#[test]
fn faulting_reference_runs_are_reported() {
    let sig = nat_sig();
    let bad = Program { funcs: vec![Func { nparams: 0, body: Expr::Ret(5) }], sig: sig.clone() };
    assert_eq!(oxo_kernel::compile::try_run(&bad, 0, &[], 10), Err(()));
    assert_eq!(oxo_kernel::compile::try_run(&bad, 3, &[], 10), Err(()));
    let good = Program {
        funcs: vec![Func { nparams: 0, body: lett(Op::Constr(0, 0, vec![]), Expr::Ret(0)) }],
        sig,
    };
    assert_eq!(oxo_kernel::compile::try_run(&good, 0, &[], 10), Ok(Ok(0)));
}
