use oxo_kernel::compile::{decode_to_eterm, Program};
use oxo_kernel::emulator::STACK_TOP;
use oxo_kernel::target::{
    assemble, decode, encode, run, run_native, HaltError, Instr, A0, A1, RA, SP, T0, T1, T2, ZERO,
};
use oxo_kernel::{erase, Constructor, Context, ETerm, Inductive, Sig, Term};
use std::rc::Rc;

fn compile(sig: Rc<Sig>, e: &ETerm) -> (Program, usize) {
    oxo_kernel::compile::compile(sig, e).expect("first-order program compiles")
}

fn enorm(sig: &Rc<Sig>, term: &ETerm) -> ETerm {
    oxo_kernel::enorm(sig, term).expect("erased normalisation succeeds")
}

#[test]
fn encode_matches_worked_examples() {
    assert_eq!(encode(Instr::Addi(ZERO, ZERO, 0)), 0x0000_0013);
    assert_eq!(encode(Instr::Ecall), 0x0000_0073);
    assert_eq!(encode(Instr::Jal(ZERO, 0)), 0x0000_006f);
    assert_eq!(encode(Instr::Jal(RA, 0)), 0x0000_00ef);
    assert_eq!(encode(Instr::Beq(ZERO, ZERO, 0)), 0x0000_0063);
    assert_eq!(encode(Instr::Beq(A0, A1, 48)), 0x02b5_0863);
    assert_eq!(encode(Instr::Jal(RA, -32)), 0xfe1f_f0ef);
}

#[test]
fn decode_inverts_worked_examples() {
    assert_eq!(decode(0x02b5_0863), Instr::Beq(A0, A1, 48));
    assert_eq!(decode(0xfe1f_f0ef), Instr::Jal(RA, -32));
    assert_eq!(decode(0x0000_0073), Instr::Ecall);
    assert_eq!(decode(0x0000_0013), Instr::Addi(ZERO, ZERO, 0));
}

#[test]
fn decode_encode_round_trip() {
    let prog = [
        Instr::Addi(A0, SP, -2048),
        Instr::Addi(T0, ZERO, 2047),
        Instr::Add(A0, T1, T2),
        Instr::Sub(RA, A0, A1),
        Instr::Lui(T0, 0x1_2345),
        Instr::Lui(A0, -1),
        Instr::Beq(T0, T1, 48),
        Instr::Bne(A0, A1, -16),
        Instr::Blt(T1, T2, 4094),
        Instr::Blt(SP, RA, -4096),
        Instr::Jal(RA, -32),
        Instr::Jal(ZERO, 1048574),
        Instr::Jalr(ZERO, RA, 0),
        Instr::Jalr(A0, T0, -1),
        Instr::Ld(T0, SP, 0),
        Instr::Ld(A0, T1, -8),
        Instr::Sd(RA, SP, 16),
        Instr::Sd(T0, SP, -24),
        Instr::Ecall,
    ];
    for i in prog {
        assert_eq!(decode(encode(i)), i);
    }
}

#[test]
fn emulator_runs_countdown_loop() {
    let code = assemble(&[
        Instr::Addi(A0, ZERO, 0),
        Instr::Addi(T0, ZERO, 5),
        Instr::Beq(T0, ZERO, 16),
        Instr::Add(A0, A0, T0),
        Instr::Addi(T0, T0, -1),
        Instr::Jal(ZERO, -12),
        Instr::Ecall,
    ]);
    let cpu = run(&code, 1000).unwrap();
    assert_eq!(cpu.reg(A0), 15);
}

#[test]
fn emulator_runs_all_stack_call() {
    let code = assemble(&[
        Instr::Addi(T0, ZERO, 3),
        Instr::Sd(T0, SP, -24),
        Instr::Addi(T0, ZERO, 4),
        Instr::Sd(T0, SP, -16),
        Instr::Addi(SP, SP, -24),
        Instr::Jal(RA, 12),
        Instr::Addi(SP, SP, 24),
        Instr::Ecall,
        Instr::Sd(RA, SP, 16),
        Instr::Ld(T0, SP, 0),
        Instr::Ld(T1, SP, 8),
        Instr::Add(A0, T0, T1),
        Instr::Ld(RA, SP, 16),
        Instr::Jalr(ZERO, RA, 0),
    ]);
    let cpu = run(&code, 1000).unwrap();
    assert_eq!(cpu.reg(A0), 7);
    assert_eq!(cpu.reg(SP), STACK_TOP as i64);
}

#[test]
fn emulator_out_of_fuel() {
    let code = assemble(&[Instr::Jal(ZERO, 0)]);
    assert!(matches!(run(&code, 1000), Err(HaltError::OutOfResources)));
}


fn v(i: usize) -> Term {
    Term::Var(i)
}
fn lam(a: Term, t: Term) -> Term {
    Term::Lam(Box::new(a), Box::new(t))
}
fn app(f: Term, x: Term) -> Term {
    Term::App(Box::new(f), Box::new(x))
}

fn nat_sig() -> Rc<Sig> {
    Rc::new(vec![Inductive {
        params: vec![],
        indices: vec![],
        sort: 1,
        constructors: vec![
            Constructor {
                args: vec![],
                index_values: vec![],
            },
            Constructor {
                args: vec![Term::Ind(0)],
                index_values: vec![],
            },
        ],
    }])
}

fn bool_sig() -> Rc<Sig> {
    Rc::new(vec![Inductive {
        params: vec![],
        indices: vec![],
        sort: 1,
        constructors: vec![
            Constructor {
                args: vec![],
                index_values: vec![],
            },
            Constructor {
                args: vec![],
                index_values: vec![],
            },
        ],
    }])
}

fn nat_bool_sig() -> Rc<Sig> {
    Rc::new(vec![
        Inductive {
            params: vec![],
            indices: vec![],
            sort: 1,
            constructors: vec![
                Constructor {
                    args: vec![],
                    index_values: vec![],
                },
                Constructor {
                    args: vec![Term::Ind(0)],
                    index_values: vec![],
                },
            ],
        },
        Inductive {
            params: vec![],
            indices: vec![],
            sort: 1,
            constructors: vec![
                Constructor {
                    args: vec![],
                    index_values: vec![],
                },
                Constructor {
                    args: vec![],
                    index_values: vec![],
                },
            ],
        },
    ])
}

fn nat_lit(mut k: usize) -> Term {
    let mut t = Term::Constr(0, 0);
    while k > 0 {
        t = app(Term::Constr(0, 1), t);
        k -= 1;
    }
    t
}

#[test]
fn compiles_nat_plus_through_rv64i() {
    let sig = nat_sig();
    let ctx = Context::with_sig(sig.clone());
    let plus_src = lam(
        Term::Ind(0),
        lam(
            Term::Ind(0),
            app(
                app(
                    app(app(Term::Rec(0, 1), lam(Term::Ind(0), Term::Ind(0))), v(0)),
                    lam(
                        Term::Ind(0),
                        lam(Term::Ind(0), app(Term::Constr(0, 1), v(0))),
                    ),
                ),
                v(1),
            ),
        ),
    );
    let (prog, entry) = compile(sig.clone(), &erase(&ctx, &plus_src).unwrap());
    let got = run_native(&prog, entry, &[2, 1], 1_000_000).unwrap();
    let applied = app(app(plus_src, nat_lit(2)), nat_lit(1));
    let want = enorm(&sig, &erase(&ctx, &applied).unwrap());
    assert_eq!(decode_to_eterm(&sig, 0, got), want);
}

#[test]
fn compiles_bool_not_through_rv64i() {
    let sig = bool_sig();
    let ctx = Context::with_sig(sig.clone());
    let not_src = lam(
        Term::Ind(0),
        app(
            app(
                app(
                    app(Term::Rec(0, 1), lam(Term::Ind(0), Term::Ind(0))),
                    Term::Constr(0, 1),
                ),
                Term::Constr(0, 0),
            ),
            v(0),
        ),
    );
    let (prog, entry) = compile(sig.clone(), &erase(&ctx, &not_src).unwrap());
    let tru = oxo_kernel::compile::encode(&sig, 0, 1, &[]);
    let fls = oxo_kernel::compile::encode(&sig, 0, 0, &[]);
    let got_t = run_native(&prog, entry, &[tru], 1000).unwrap();
    let got_f = run_native(&prog, entry, &[fls], 1000).unwrap();
    assert_eq!(
        decode_to_eterm(&sig, 0, got_t),
        enorm(
            &sig,
            &erase(&ctx, &app(not_src.clone(), Term::Constr(0, 1))).unwrap()
        )
    );
    assert_eq!(
        decode_to_eterm(&sig, 0, got_f),
        enorm(
            &sig,
            &erase(&ctx, &app(not_src, Term::Constr(0, 0))).unwrap()
        )
    );
}

#[test]
fn compiles_even_through_rv64i() {
    let sig = nat_bool_sig();
    let ctx = Context::with_sig(sig.clone());
    let not1 = lam(
        Term::Ind(1),
        app(
            app(
                app(
                    app(Term::Rec(1, 1), lam(Term::Ind(1), Term::Ind(1))),
                    Term::Constr(1, 1),
                ),
                Term::Constr(1, 0),
            ),
            v(0),
        ),
    );
    let even_src = lam(
        Term::Ind(0),
        app(
            app(
                app(
                    app(Term::Rec(0, 1), lam(Term::Ind(0), Term::Ind(1))),
                    Term::Constr(1, 1),
                ),
                lam(Term::Ind(0), lam(Term::Ind(1), app(not1, v(0)))),
            ),
            v(0),
        ),
    );
    let (prog, entry) = compile(sig.clone(), &erase(&ctx, &even_src).unwrap());
    let got4 = run_native(&prog, entry, &[4], 1_000_000).unwrap();
    let got3 = run_native(&prog, entry, &[3], 1_000_000).unwrap();
    assert_eq!(
        decode_to_eterm(&sig, 1, got4),
        enorm(
            &sig,
            &erase(&ctx, &app(even_src.clone(), nat_lit(4))).unwrap()
        )
    );
    assert_eq!(
        decode_to_eterm(&sig, 1, got3),
        enorm(&sig, &erase(&ctx, &app(even_src, nat_lit(3))).unwrap())
    );
    assert_eq!(decode_to_eterm(&sig, 1, got4), ETerm::Constr(1, 1));
    assert_eq!(decode_to_eterm(&sig, 1, got3), ETerm::Constr(1, 0));
}

struct Rng(u64);

impl Rng {
    fn bits(&mut self) -> u64 {
        let mut x = self.0;
        x ^= x << 13;
        x ^= x >> 7;
        x ^= x << 17;
        self.0 = x;
        x
    }
    fn below(&mut self, n: u64) -> u64 {
        self.bits() % n
    }
}

#[derive(Clone, Copy, PartialEq)]
enum Ty {
    Nat,
    Bool,
}

fn ty_term(t: Ty) -> Term {
    match t {
        Ty::Nat => Term::Ind(0),
        Ty::Bool => Term::Ind(1),
    }
}

fn pick_var(ty: Ty, ctx: &[Ty], rng: &mut Rng) -> Option<Term> {
    let cands: Vec<usize> = (0..ctx.len())
        .filter(|&i| ctx[ctx.len() - 1 - i] == ty)
        .collect();
    if cands.is_empty() {
        None
    } else {
        Some(Term::Var(cands[rng.below(cands.len() as u64) as usize]))
    }
}

fn leaf(ty: Ty, ctx: &[Ty], rng: &mut Rng) -> Term {
    if rng.below(2) == 0 {
        if let Some(v) = pick_var(ty, ctx, rng) {
            return v;
        }
    }
    match ty {
        Ty::Nat => nat_lit(rng.below(3) as usize),
        Ty::Bool => Term::Constr(1, rng.below(2) as usize),
    }
}

fn gen_nat_rec(ty: Ty, ctx: &mut Vec<Ty>, depth: usize, rng: &mut Rng) -> Term {
    let base = gen(ty, ctx, depth - 1, rng);
    ctx.push(Ty::Nat);
    ctx.push(ty);
    let step = gen(ty, ctx, depth - 1, rng);
    ctx.pop();
    ctx.pop();
    let major = nat_lit(rng.below(3) as usize);
    app(
        app(
            app(app(Term::Rec(0, 1), lam(Term::Ind(0), ty_term(ty))), base),
            lam(Term::Ind(0), lam(ty_term(ty), step)),
        ),
        major,
    )
}

fn gen_bool_rec(ty: Ty, ctx: &mut Vec<Ty>, depth: usize, rng: &mut Rng) -> Term {
    let ef = gen(ty, ctx, depth - 1, rng);
    let et = gen(ty, ctx, depth - 1, rng);
    let major = gen(Ty::Bool, ctx, depth - 1, rng);
    app(
        app(
            app(app(Term::Rec(1, 1), lam(Term::Ind(1), ty_term(ty))), ef),
            et,
        ),
        major,
    )
}

fn gen(ty: Ty, ctx: &mut Vec<Ty>, depth: usize, rng: &mut Rng) -> Term {
    if depth == 0 || rng.below(3) == 0 {
        return leaf(ty, ctx, rng);
    }
    match ty {
        Ty::Nat => match rng.below(3) {
            0 => app(Term::Constr(0, 1), gen(Ty::Nat, ctx, depth - 1, rng)),
            1 => gen_nat_rec(ty, ctx, depth, rng),
            _ => gen_bool_rec(ty, ctx, depth, rng),
        },
        Ty::Bool => match rng.below(2) {
            0 => gen_nat_rec(ty, ctx, depth, rng),
            _ => gen_bool_rec(ty, ctx, depth, rng),
        },
    }
}

#[test]
fn compiler_matches_evaluator_through_rv64i() {
    let sig = nat_bool_sig();
    let ctx = Context::with_sig(sig.clone());
    let mut rng = Rng(0x9E37_79B9_7F4A_7C15);
    for _ in 0..2000 {
        let ty = if rng.below(2) == 0 { Ty::Nat } else { Ty::Bool };
        let mut tctx = Vec::new();
        let t = gen(ty, &mut tctx, 4, &mut rng);
        let e = erase(&ctx, &t).unwrap();
        let (prog, entry) = compile(sig.clone(), &e);
        let i = if ty == Ty::Nat { 0 } else { 1 };
        let got = run_native(&prog, entry, &[], 20_000_000).unwrap();
        assert_eq!(decode_to_eterm(&sig, i, got), enorm(&sig, &e));
    }
}

#[test]
fn load_gives_back_what_store_wrote() {
    let mut cpu = run(&assemble(&[Instr::Ecall]), 10).unwrap();
    cpu.store64(0x2000, -12345);
    cpu.store64(0x2008, 0x0102_0304_0506_0708);
    assert_eq!(cpu.load64(0x2000), -12345);
    assert_eq!(cpu.load64(0x2008), 0x0102_0304_0506_0708);
    cpu.store64(0x2004, 7);
    assert_eq!(cpu.load64(0x2004), 7);
    assert_eq!(cpu.load64(0x3000), 0);
}

#[test]
fn register_zero_reads_as_zero() {
    let code = assemble(&[Instr::Addi(ZERO, ZERO, 5), Instr::Add(A0, ZERO, ZERO), Instr::Ecall]);
    let cpu = run(&code, 10).unwrap();
    assert_eq!(cpu.reg(ZERO), 0);
    assert_eq!(cpu.reg(A0), 0);
}

#[test]
fn unknown_word_gets_the_emulator_stuck() {
    let code = assemble(&[Instr::Addi(A0, ZERO, 1), Instr::Unknown(0xffff_ffff)]);
    assert!(matches!(run(&code, 10), Err(HaltError::Stuck)));
}

#[test]
fn more_fuel_does_not_change_a_finished_run() {
    let code = assemble(&[
        Instr::Addi(A0, ZERO, 0),
        Instr::Addi(T0, ZERO, 5),
        Instr::Beq(T0, ZERO, 16),
        Instr::Add(A0, A0, T0),
        Instr::Addi(T0, T0, -1),
        Instr::Jal(ZERO, -12),
        Instr::Ecall,
    ]);
    let a = run(&code, 100).unwrap().reg(A0);
    let b = run(&code, 100_000).unwrap().reg(A0);
    assert_eq!(a, b);
    assert!(matches!(run(&code, 5), Err(HaltError::OutOfResources)));
}

#[test]
fn assembled_image_decodes_back() {
    let code = [
        Instr::Addi(A0, SP, -2048),
        Instr::Lui(T0, 0x1_2345),
        Instr::Beq(T0, T1, 48),
        Instr::Jal(RA, -32),
        Instr::Sd(RA, SP, 16),
        Instr::Ld(A0, T1, -8),
        Instr::Ecall,
    ];
    let bytes = assemble(&code);
    assert_eq!(bytes.len(), 4 * code.len());
    for (k, i) in code.iter().enumerate() {
        let w = u32::from_le_bytes([bytes[4 * k], bytes[4 * k + 1], bytes[4 * k + 2], bytes[4 * k + 3]]);
        assert_eq!(decode(w), *i);
    }
}

fn regs_of(i: Instr) -> Vec<u32> {
    match i {
        Instr::Addi(a, b, _) | Instr::Jalr(a, b, _) | Instr::Ld(a, b, _) | Instr::Sd(a, b, _) => vec![a, b],
        Instr::Beq(a, b, _) | Instr::Bne(a, b, _) | Instr::Blt(a, b, _) => vec![a, b],
        Instr::Add(a, b, c) | Instr::Sub(a, b, c) => vec![a, b, c],
        Instr::Lui(a, _) | Instr::Jal(a, _) => vec![a],
        Instr::Ecall | Instr::Unknown(_) => vec![],
    }
}

#[test]
fn lowered_code_is_runnable_and_frames_are_aligned() {
    let sig = nat_sig();
    let ctx = Context::with_sig(sig.clone());
    let plus_src = lam(
        Term::Ind(0),
        lam(
            Term::Ind(0),
            app(
                app(
                    app(app(Term::Rec(0, 1), lam(Term::Ind(0), Term::Ind(0))), v(0)),
                    lam(Term::Ind(0), lam(Term::Ind(0), app(Term::Constr(0, 1), v(0)))),
                ),
                v(1),
            ),
        ),
    );
    let (prog, entry) = compile(sig.clone(), &erase(&ctx, &plus_src).unwrap());
    let code = oxo_kernel::target::lower(&prog, entry, &[2, 1]);
    assert!(code.contains(&Instr::Ecall));
    for i in &code {
        assert!(!matches!(i, Instr::Unknown(_)));
        assert!(regs_of(*i).iter().all(|r| *r < 32));
        if let Instr::Addi(SP, SP, imm) = i {
            assert_eq!(imm % 16, 0);
        }
    }
}

#[test]
fn a_halted_machine_sits_on_ecall_with_x0_zero() {
    let code = assemble(&[
        Instr::Addi(ZERO, ZERO, 7),
        Instr::Addi(A0, ZERO, 2),
        Instr::Ecall,
    ]);
    let cpu = run(&code, 100).unwrap();
    assert_eq!(cpu.regs[0], 0);
    assert_eq!(cpu.reg(ZERO), 0);
    let word = (cpu.load64(cpu.pc) as u64 & 0xffff_ffff) as u32;
    assert_eq!(decode(word), Instr::Ecall);
    assert_eq!(cpu.reg(A0), 2);
    assert!(run(&code, 0).is_err());
}

#[test]
fn faulting_runs_are_reported() {
    let code = assemble(&[Instr::Addi(A0, ZERO, 1), Instr::Ecall]);
    let last = assemble(&[Instr::Addi(A0, ZERO, 1)]);
    assert!(oxo_kernel::emulator::try_run_at(&last, 5, u64::MAX - 3).is_none());
    match oxo_kernel::emulator::try_run_at(&code, 5, 0) {
        Some(Ok(cpu)) => assert_eq!(cpu.reg(A0), 1),
        _ => panic!("expected a finished run"),
    }
}

#[test]
fn encode_after_decode_gives_back_the_word() {
    let mut w: u32 = 0x1234_5677;
    for _ in 0..2000 {
        w ^= w << 13;
        w ^= w >> 17;
        w ^= w << 5;
        assert_eq!(encode(decode(w)), w);
    }
    for w in [0x0000_0073u32, 0x00a0_0513, 0xfff0_0093, 0x0000_0000, 0xdead_beef] {
        assert_eq!(encode(decode(w)), w);
    }
}

#[test]
fn image_holds_each_word_little_endian() {
    assert_eq!(assemble(&[Instr::Ecall]), vec![0x73, 0, 0, 0]);
    assert!(assemble(&[]).is_empty());
    let code = [Instr::Addi(A0, ZERO, 5), Instr::Ecall];
    let bytes = assemble(&code);
    for (k, i) in code.iter().enumerate() {
        assert_eq!(&bytes[4 * k..4 * k + 4], &encode(*i).to_le_bytes());
    }
}
