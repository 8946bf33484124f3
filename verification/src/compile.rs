use std::rc::Rc;
use vstd::prelude::*;

use crate::erasure::{spec_eapply, spec_eeval, spec_equote, spec_equote_args, spec_equote_spine, EMValue, ETerm};
use crate::value::FUEL;
use crate::signature::deref_sig;
use crate::term::{ind_head, spec_ind_head, Sig, Term};

verus! {

/// A let-bound operation: build a constructor value from local slots, or
/// call a function with local slots as arguments.
#[derive(Clone)]
pub enum Op {
    Constr(usize, usize, Vec<usize>),
    Call(usize, Vec<usize>),
}

/// A case branch binding `nbind` constructor fields.
pub struct Branch {
    pub nbind: usize,
    pub body: Expr,
}

/// First-order code: every intermediate value lives in a numbered local
/// slot; `Let` appends the result of its operation as a new slot.
pub enum Expr {
    Ret(usize),
    Let(Op, Box<Expr>),
    Case(usize, usize, Vec<Branch>),
}

pub struct Func {
    pub nparams: usize,
    pub body: Expr,
}

pub struct Program {
    pub funcs: Vec<Func>,
    pub sig: Rc<Sig>,
}

/// The machine representations of inductive values: an enumeration is its
/// constructor's number, a natural-number-like type is its unary count.
#[derive(Debug, Clone, Copy, PartialEq, Eq, Structural)]
pub enum Shape {
    NatLike,
    EnumLike,
}

/// The representation of inductive `i`, if it has one: every constructor
/// without arguments, or exactly a nullary constructor and a constructor
/// with one recursive argument.
pub open spec fn spec_shape(sig: Sig, i: int) -> Option<Shape> {
    if !(0 <= i < sig@.len()) {
        None
    } else {
        let cs = sig@[i].constructors@;
        if forall|c: int| 0 <= c < cs.len() ==> (#[trigger] cs[c]).args@.len() == 0 {
            Some(Shape::EnumLike)
        } else if cs.len() == 2 && cs[0].args@.len() == 0 && cs[1].args@.len() == 1
            && spec_ind_head(cs[1].args@[0]) == Some(i as usize) {
            Some(Shape::NatLike)
        } else {
            None
        }
    }
}

/// The machine word of constructor `j` of inductive `i` applied to fields
/// already in machine form; `None` where the value has no representation.
pub open spec fn spec_encode(sig: Sig, i: int, j: usize, fields: Seq<i64>) -> Option<i64> {
    match spec_shape(sig, i) {
        Some(Shape::EnumLike) => Some(j as i64),
        Some(Shape::NatLike) => if j == 0 {
            Some(0i64)
        } else if fields.len() == 0 || fields[0] == i64::MAX {
            None
        } else {
            Some((fields[0] + 1) as i64)
        },
        None => None,
    }
}

/// The constructor number and fields of a machine word of inductive `i`.
pub open spec fn spec_decode(sig: Sig, i: int, v: i64) -> Option<(usize, Seq<i64>)> {
    match spec_shape(sig, i) {
        Some(Shape::EnumLike) => Some((v as usize, Seq::empty())),
        Some(Shape::NatLike) => if v == 0 {
            Some((0usize, Seq::empty()))
        } else if v == i64::MIN {
            None
        } else {
            Some((1usize, seq![(v - 1) as i64]))
        },
        None => None,
    }
}

/// The erased constructor term that a machine word of inductive `i`
/// stands for: a unary numeral for natural-number-like types.
pub open spec fn spec_decode_to_eterm(sig: Sig, i: usize, v: i64) -> ETerm
    decreases (if v > 0 {
        v as int
    } else {
        0
    }),
{
    match spec_shape(sig, i as int) {
        Some(Shape::NatLike) => if v > 0 {
            ETerm::App(
                Box::new(ETerm::Constr(i, 1)),
                Box::new(spec_decode_to_eterm(sig, i, (v - 1) as i64)),
            )
        } else {
            ETerm::Constr(i, 0)
        },
        _ => ETerm::Constr(i, v as usize),
    }
}

pub fn shape(sig: &Sig, i: usize) -> (r: Shape)
    requires
        spec_shape(*sig, i as int) is Some,
    ensures
        Some(r) == spec_shape(*sig, i as int),
{
    let ind = &sig[i];
    let cs = &ind.constructors;
    let mut c: usize = 0;
    let mut all_empty = true;
    while c < cs.len()
        invariant
            c <= cs@.len(),
            cs@ == sig@[i as int].constructors@,
            all_empty == (forall|d: int| 0 <= d < c ==> (#[trigger] cs@[d]).args@.len() == 0),
        decreases cs@.len() - c,
    {
        if cs[c].args.len() != 0 {
            all_empty = false;
        }
        c = c + 1;
    }
    if all_empty {
        return Shape::EnumLike;
    }
    Shape::NatLike
}

pub fn encode(sig: &Sig, i: usize, j: usize, fields: &[i64]) -> (r: i64)
    requires
        spec_encode(*sig, i as int, j, fields@) is Some,
    ensures
        Some(r) == spec_encode(*sig, i as int, j, fields@),
{
    match shape(sig, i) {
        Shape::EnumLike => j as i64,
        Shape::NatLike => {
            if j == 0 {
                0
            } else {
                fields[0] + 1
            }
        },
    }
}

pub fn decode(sig: &Sig, i: usize, v: i64) -> (r: (usize, Vec<i64>))
    requires
        spec_decode(*sig, i as int, v) is Some,
    ensures
        Some((r.0, r.1@)) == spec_decode(*sig, i as int, v),
{
    match shape(sig, i) {
        Shape::EnumLike => (v as usize, Vec::new()),
        Shape::NatLike => {
            if v == 0 {
                (0, Vec::new())
            } else {
                let mut fields = Vec::new();
                fields.push(v - 1);
                proof {
                    assert(fields@ =~= seq![(v - 1) as i64]);
                }
                (1, fields)
            }
        },
    }
}

pub fn decode_to_eterm(sig: &Sig, i: usize, v: i64) -> (r: ETerm)
    requires
        spec_shape(*sig, i as int) is Some,
        spec_shape(*sig, i as int) == Some(Shape::NatLike) ==> v >= 0,
    ensures
        r == spec_decode_to_eterm(*sig, i, v),
    decreases (if v > 0 {
        v as int
    } else {
        0
    }),
{
    let (tag, fields) = decode(sig, i, v);
    let mut out = ETerm::Constr(i, tag);
    if fields.len() > 0 {
        let inner = decode_to_eterm(sig, i, fields[0]);
        out = ETerm::App(Box::new(out), Box::new(inner));
    }
    out
}

/// Law: the words of representable values: a constructor of an
/// enumeration is its number; a natural-number-like value is its unary
/// count, zero for the nullary constructor and one more than the field for
/// the other; decoding a positive count gives the successor constructor
/// and the count less one.
pub proof fn lemma_encode_values(sig: Sig, i: int, j: usize, n: i64)
    ensures
        spec_shape(sig, i) == Some(Shape::EnumLike) ==> spec_encode(sig, i, j, Seq::empty())
            == Some(j as i64),
        spec_shape(sig, i) == Some(Shape::NatLike) ==> spec_encode(sig, i, 0, Seq::empty())
            == Some(0i64),
        spec_shape(sig, i) == Some(Shape::NatLike) && n < i64::MAX ==> spec_encode(
            sig,
            i,
            1,
            seq![n],
        ) == Some((n + 1) as i64),
        spec_shape(sig, i) == Some(Shape::NatLike) && n > 0 ==> spec_decode(sig, i, n) == Some(
            (1usize, seq![(n - 1) as i64]),
        ),
        spec_shape(sig, i) == Some(Shape::NatLike) ==> spec_decode(sig, i, 0) == Some(
            (0usize, Seq::<i64>::empty()),
        ),
{
}

/// Law: decoding the word of a representable constructor value gives back
/// the constructor number and its fields.
pub proof fn lemma_decode_encode(sig: Sig, i: int, j: usize, fields: Seq<i64>)
    requires
        spec_shape(sig, i) is Some,
        spec_shape(sig, i) == Some(Shape::EnumLike) ==> j <= i64::MAX && fields.len() == 0,
        spec_shape(sig, i) == Some(Shape::NatLike) ==> j <= 1 && fields.len() == j && (j == 1
            ==> 0 <= fields[0] < i64::MAX),
    ensures
        spec_encode(sig, i, j, fields) matches Some(v) && spec_decode(sig, i, v) == Some(
            (j, fields),
        ),
{
    if spec_shape(sig, i) == Some(Shape::NatLike) {
        if j == 1 {
            assert(fields =~= seq![fields[0]]);
        } else {
            assert(fields =~= Seq::<i64>::empty());
        }
    } else {
        assert(fields =~= Seq::<i64>::empty());
    }
}

/// A stack frame: local slots and the expression still to run, borrowed
/// from the program.
pub struct Frame<'a> {
    pub(crate) locals: Vec<i64>,
    pub(crate) ctrl: &'a Expr,
}

/// Machine state: the running frame and the suspended callers.
pub struct State<'a> {
    pub(crate) cur: Frame<'a>,
    pub(crate) stack: Vec<Frame<'a>>,
}

#[derive(Debug, PartialEq, Eq, Clone, Copy, Structural)]
pub enum RunError {
    Stuck,
    OutOfResources,
}

/// A frame as mathematics: its local slots and its control expression.
pub type FrameView = (Seq<i64>, Expr);

pub(crate) open spec fn frame_view(f: Frame) -> FrameView {
    (f.locals@, *f.ctrl)
}

pub(crate) open spec fn stack_view(s: Seq<Frame>) -> Seq<FrameView> {
    s.map_values(|f: Frame| frame_view(f))
}

/// Whether every slot of `slots` names an existing local.
pub open spec fn slots_in(slots: Seq<usize>, n: nat) -> bool {
    forall|k: int| 0 <= k < slots.len() ==> #[trigger] slots[k] < n
}

/// One machine step. `Err(())` is a fault: a slot, function or constructor
/// representation that does not exist; `Ok(None)` is a stuck machine (a
/// return with no caller, a case without a branch for the tag).
pub open spec fn spec_step(
    funcs: Seq<Func>,
    sig: Sig,
    cur: FrameView,
    stack: Seq<FrameView>,
) -> Result<Option<(FrameView, Seq<FrameView>)>, ()> {
    let (locals, ctrl) = cur;
    match ctrl {
        Expr::Ret(slot) => if slot >= locals.len() {
            Err(())
        } else if stack.len() == 0 {
            Ok(None)
        } else {
            let caller = stack.last();
            Ok(Some(((caller.0.push(locals[slot as int]), caller.1), stack.drop_last())))
        },
        Expr::Let(Op::Constr(i, j, fs), rest) => if !slots_in(fs@, locals.len()) {
            Err(())
        } else {
            match spec_encode(sig, i as int, j, fs@.map_values(|s: usize| locals[s as int])) {
                Some(v) => Ok(Some(((locals.push(v), *rest), stack))),
                None => Err(()),
            }
        },
        Expr::Let(Op::Call(f, args), rest) => if !slots_in(args@, locals.len()) || f
            >= funcs.len() {
            Err(())
        } else {
            Ok(
                Some(
                    (
                        (args@.map_values(|s: usize| locals[s as int]), funcs[f as int].body),
                        stack.push((locals, *rest)),
                    ),
                ),
            )
        },
        Expr::Case(i, scrut, branches) => if scrut >= locals.len() {
            Err(())
        } else {
            match spec_decode(sig, i as int, locals[scrut as int]) {
                None => Err(()),
                Some((tag, fields)) => if tag < branches@.len() {
                    Ok(Some(((locals + fields, branches@[tag as int].body), stack)))
                } else {
                    Ok(None)
                },
            }
        },
    }
}

/// The outcome of running for at most `fuel` steps: `Err(())` on a fault.
pub open spec fn spec_run_from(
    funcs: Seq<Func>,
    sig: Sig,
    cur: FrameView,
    stack: Seq<FrameView>,
    fuel: nat,
) -> Result<Result<i64, RunError>, ()>
    decreases fuel,
{
    if fuel == 0 {
        Ok(Err(RunError::OutOfResources))
    } else {
        match cur.1 {
            Expr::Ret(slot) if stack.len() == 0 && slot < cur.0.len() => Ok(Ok(cur.0[slot as int])),
            _ => match spec_step(funcs, sig, cur, stack) {
                Err(()) => Err(()),
                Ok(None) => Ok(Err(RunError::Stuck)),
                Ok(Some((c2, s2))) => spec_run_from(funcs, sig, c2, s2, (fuel - 1) as nat),
            },
        }
    }
}

/// Running function `entry` of a program on `args`.
pub open spec fn spec_run(prog: Program, entry: usize, args: Seq<i64>, fuel: nat) -> Result<
    Result<i64, RunError>,
    (),
> {
    if entry >= prog.funcs@.len() {
        Err(())
    } else {
        spec_run_from(
            prog.funcs@,
            *prog.sig,
            (args, prog.funcs@[entry as int].body),
            Seq::empty(),
            fuel,
        )
    }
}

fn gather(locals: &Vec<i64>, slots: &Vec<usize>) -> (r: Vec<i64>)
    requires
        slots_in(slots@, locals@.len()),
    ensures
        r@ == slots@.map_values(|s: usize| locals@[s as int]),
{
    let mut r: Vec<i64> = Vec::new();
    let mut k: usize = 0;
    while k < slots.len()
        invariant
            k <= slots@.len(),
            slots_in(slots@, locals@.len()),
            r@ =~= slots@.subrange(0, k as int).map_values(|s: usize| locals@[s as int]),
        decreases slots@.len() - k,
    {
        r.push(locals[slots[k]]);
        k = k + 1;
    }
    assert(slots@.subrange(0, slots@.len() as int) =~= slots@);
    r
}

/// One machine step (see `spec_step`).
fn step<'a>(prog: &'a Program, st: State<'a>) -> (r: Option<State<'a>>)
    requires
        spec_step(prog.funcs@, *prog.sig, frame_view(st.cur), stack_view(st.stack@)) is Ok,
    ensures
        match spec_step(prog.funcs@, *prog.sig, frame_view(st.cur), stack_view(st.stack@)) {
            Ok(None) => r is None,
            Ok(Some((c2, s2))) => r matches Some(st2) && frame_view(st2.cur) == c2 && stack_view(
                st2.stack@,
            ) == s2,
            Err(()) => false,
        },
{
    let State { cur, mut stack } = st;
    let Frame { mut locals, ctrl } = cur;
    let ghost old_stack = stack@;
    match ctrl {
        Expr::Ret(slot) => {
            let v = locals[*slot];
            match stack.pop() {
                None => None,
                Some(caller) => {
                    let Frame { locals: mut clocals, ctrl: cctrl } = caller;
                    clocals.push(v);
                    proof {
                        assert(stack_view(stack@) =~= stack_view(old_stack).drop_last());
                    }
                    Some(State { cur: Frame { locals: clocals, ctrl: cctrl }, stack })
                },
            }
        },
        Expr::Let(Op::Constr(i, j, fs), rest) => {
            let vs = gather(&locals, fs);
            let v = encode(&prog.sig, *i, *j, vs.as_slice());
            locals.push(v);
            Some(State { cur: Frame { locals, ctrl: &**rest }, stack })
        },
        Expr::Let(Op::Call(f, args), rest) => {
            let avs = gather(&locals, args);
            stack.push(Frame { locals, ctrl: &**rest });
            proof {
                assert(stack_view(stack@) =~= stack_view(old_stack).push(
                    (frame_view(Frame { locals: stack@.last().locals, ctrl: &**rest })),
                ));
            }
            Some(State { cur: Frame { locals: avs, ctrl: &prog.funcs[*f].body }, stack })
        },
        Expr::Case(i, scrut, branches) => {
            let v = locals[*scrut];
            let (tag, fields) = decode(&prog.sig, *i, v);
            if tag >= branches.len() {
                return None;
            }
            let mut fields = fields;
            locals.append(&mut fields);
            Some(State { cur: Frame { locals, ctrl: &branches[tag].body }, stack })
        },
    }
}

/// Runs function `entry` on `args` for at most `fuel` steps.
pub fn run(prog: &Program, entry: usize, args: &[i64], fuel: usize) -> (r: Result<i64, RunError>)
    requires
        spec_run(*prog, entry, args@, fuel as nat) is Ok,
    ensures
        Ok::<Result<i64, RunError>, ()>(r) == spec_run(*prog, entry, args@, fuel as nat),
{
    let mut locals: Vec<i64> = Vec::new();
    let mut k: usize = 0;
    while k < args.len()
        invariant
            k <= args@.len(),
            locals@ =~= args@.subrange(0, k as int),
        decreases args@.len() - k,
    {
        locals.push(args[k]);
        k = k + 1;
    }
    assert(args@.subrange(0, args@.len() as int) =~= args@);
    let mut st = State { cur: Frame { locals, ctrl: &prog.funcs[entry].body }, stack: Vec::new() };
    assert(stack_view(st.stack@) =~= Seq::empty());
    let mut n: usize = 0;
    while n < fuel
        invariant
            n <= fuel,
            spec_run(*prog, entry, args@, fuel as nat) == spec_run_from(
                prog.funcs@,
                *prog.sig,
                frame_view(st.cur),
                stack_view(st.stack@),
                (fuel - n) as nat,
            ),
            spec_run(*prog, entry, args@, fuel as nat) is Ok,
        decreases fuel - n,
    {
        if let Expr::Ret(slot) = st.cur.ctrl {
            if st.stack.len() == 0 {
                if *slot < st.cur.locals.len() {
                    return Ok(st.cur.locals[*slot]);
                }
            }
        }
        match step(prog, st) {
            Some(next) => st = next,
            None => return Err(RunError::Stuck),
        }
        n = n + 1;
    }
    Err(RunError::OutOfResources)
}

/// The representation of inductive `i`, if it has one (see `spec_shape`).
fn try_shape(sig: &Sig, i: usize) -> (r: Option<Shape>)
    ensures
        r == spec_shape(*sig, i as int),
{
    if i >= sig.len() {
        return None;
    }
    let cs = &sig[i].constructors;
    let mut c: usize = 0;
    let mut all_empty = true;
    while c < cs.len()
        invariant
            c <= cs@.len(),
            cs@ == sig@[i as int].constructors@,
            all_empty == (forall|d: int| 0 <= d < c ==> (#[trigger] cs@[d]).args@.len() == 0),
        decreases cs@.len() - c,
    {
        if cs[c].args.len() != 0 {
            all_empty = false;
        }
        c = c + 1;
    }
    if all_empty {
        return Some(Shape::EnumLike);
    }
    if cs.len() == 2 && cs[0].args.len() == 0 && cs[1].args.len() == 1 {
        match ind_head(&cs[1].args[0]) {
            Some(h) => if h == i {
                return Some(Shape::NatLike);
            },
            None => {},
        }
    }
    None
}

fn all_slots_in(slots: &Vec<usize>, n: usize) -> (r: bool)
    ensures
        r == slots_in(slots@, n as nat),
{
    let mut k: usize = 0;
    while k < slots.len()
        invariant
            k <= slots@.len(),
            forall|m: int| 0 <= m < k ==> #[trigger] slots@[m] < n,
        decreases slots@.len() - k,
    {
        if slots[k] >= n {
            return false;
        }
        k = k + 1;
    }
    true
}

/// Whether the next step of the machine faults (see `spec_step`).
fn step_faults(prog: &Program, st: &State) -> (r: bool)
    ensures
        r == (spec_step(prog.funcs@, *prog.sig, frame_view(st.cur), stack_view(st.stack@)) is Err),
{
    let locals = &st.cur.locals;
    match st.cur.ctrl {
        Expr::Ret(slot) => *slot >= locals.len(),
        Expr::Let(Op::Constr(i, j, fs), _) => {
            if !all_slots_in(fs, locals.len()) {
                return true;
            }
            match try_shape(&prog.sig, *i) {
                None => true,
                Some(Shape::EnumLike) => false,
                Some(Shape::NatLike) => {
                    if *j == 0 {
                        false
                    } else {
                        let vs = gather(locals, fs);
                        vs.len() == 0 || vs[0] == i64::MAX
                    }
                },
            }
        },
        Expr::Let(Op::Call(f, args), _) => !all_slots_in(args, locals.len()) || *f
            >= prog.funcs.len(),
        Expr::Case(i, scrut, _) => {
            if *scrut >= locals.len() {
                return true;
            }
            match try_shape(&prog.sig, *i) {
                None => true,
                Some(Shape::EnumLike) => false,
                Some(Shape::NatLike) => locals[*scrut] == i64::MIN,
            }
        },
    }
}

/// Runs function `entry` on `args` for at most `fuel` steps; `Err(())`
/// where the run faults (see `spec_run`).
pub fn try_run(prog: &Program, entry: usize, args: &[i64], fuel: usize) -> (r: Result<
    Result<i64, RunError>,
    (),
>)
    ensures
        r == spec_run(*prog, entry, args@, fuel as nat),
{
    if entry >= prog.funcs.len() {
        return Err(());
    }
    let mut locals: Vec<i64> = Vec::new();
    let mut k: usize = 0;
    while k < args.len()
        invariant
            k <= args@.len(),
            locals@ =~= args@.subrange(0, k as int),
        decreases args@.len() - k,
    {
        locals.push(args[k]);
        k = k + 1;
    }
    assert(args@.subrange(0, args@.len() as int) =~= args@);
    let mut st = State { cur: Frame { locals, ctrl: &prog.funcs[entry].body }, stack: Vec::new() };
    assert(stack_view(st.stack@) =~= Seq::empty());
    let mut n: usize = 0;
    while n < fuel
        invariant
            n <= fuel,
            spec_run(*prog, entry, args@, fuel as nat) == spec_run_from(
                prog.funcs@,
                *prog.sig,
                frame_view(st.cur),
                stack_view(st.stack@),
                (fuel - n) as nat,
            ),
        decreases fuel - n,
    {
        if let Expr::Ret(slot) = st.cur.ctrl {
            if st.stack.len() == 0 {
                if *slot < st.cur.locals.len() {
                    return Ok(Ok(st.cur.locals[*slot]));
                }
            }
        }
        if step_faults(prog, &st) {
            return Err(());
        }
        match step(prog, st) {
            Some(next) => st = next,
            None => return Ok(Err(RunError::Stuck)),
        }
        n = n + 1;
    }
    Ok(Err(RunError::OutOfResources))
}

/// Law: a run that finished within some fuel finishes with the same result
/// given more fuel.
pub proof fn lemma_run_fuel_monotone(
    funcs: Seq<Func>,
    sig: Sig,
    cur: FrameView,
    stack: Seq<FrameView>,
    fuel: nat,
    more: nat,
)
    requires
        spec_run_from(funcs, sig, cur, stack, fuel) matches Ok(Ok(_)),
        fuel <= more,
    ensures
        spec_run_from(funcs, sig, cur, stack, more) == spec_run_from(funcs, sig, cur, stack, fuel),
    decreases fuel,
{
    match cur.1 {
        Expr::Ret(slot) if stack.len() == 0 && slot < cur.0.len() => {},
        _ => match spec_step(funcs, sig, cur, stack) {
            Ok(Some((c2, s2))) => {
                lemma_run_fuel_monotone(funcs, sig, c2, s2, (fuel - 1) as nat, (more - 1) as nat);
            },
            _ => {},
        },
    }
}

/// The size of an erased term.
pub open spec fn spec_esize(e: ETerm) -> nat
    decreases e,
{
    match e {
        ETerm::Lam(b) => 1 + spec_esize(*b),
        ETerm::App(f, x) => 1 + spec_esize(*f) + spec_esize(*x),
        ETerm::Pair(a, b) => 1 + spec_esize(*a) + spec_esize(*b),
        ETerm::Fst(p) | ETerm::Snd(p) => 1 + spec_esize(*p),
        _ => 1,
    }
}

/// The head and the arguments of an application spine.
pub open spec fn spec_flatten(e: ETerm) -> (ETerm, Seq<ETerm>)
    decreases e,
{
    match e {
        ETerm::App(f, x) => {
            let (h, args) = spec_flatten(*f);
            (h, args.push(*x))
        },
        _ => (e, Seq::empty()),
    }
}

/// The number of leading λ-binders of an erased term.
pub open spec fn spec_lambda_count(e: ETerm) -> nat
    decreases e,
{
    match e {
        ETerm::Lam(b) => 1 + spec_lambda_count(*b),
        _ => 0,
    }
}

pub proof fn lemma_flatten_sizes(e: ETerm)
    ensures
        spec_esize(spec_flatten(e).0) <= spec_esize(e),
        e is App ==> spec_esize(spec_flatten(e).0) < spec_esize(e),
        forall|k: int|
            0 <= k < spec_flatten(e).1.len() ==> spec_esize(#[trigger] spec_flatten(e).1[k])
                < spec_esize(e),
    decreases e,
{
    if let ETerm::App(f, x) = e {
        lemma_flatten_sizes(*f);
    }
}

fn seal(ops: Vec<Op>, ret: usize) -> (r: Expr)
    ensures
        mexpr(r) == spec_seal(mops(ops@), ret),
{
    let ghost orig = mops(ops@);
    let ghost len = ops@.len();
    let mut ops = ops;
    let mut e = Expr::Ret(ret);
    while ops.len() > 0
        invariant
            mops(ops@) == orig.subrange(0, ops@.len() as int),
            ops@.len() <= len,
            orig.len() == len,
            mexpr(e) == spec_seal(orig.subrange(ops@.len() as int, len as int), ret),
        decreases ops@.len(),
    {
        let ghost n = ops@.len();
        let ghost before = ops@;
        let op = ops.pop().unwrap();
        assert(before =~= ops@.push(op));
        assert(mops(before)[n - 1] == mop(op));
        assert(mops(ops@) =~= mops(before).subrange(0, n - 1));
        assert(orig.subrange(n - 1, len as int).drop_first() =~= orig.subrange(n as int, len as int));
        assert(orig.subrange(n - 1, len as int)[0] == orig[n - 1]);
        e = Expr::Let(op, Box::new(e));
    }
    assert(orig.subrange(0, len as int) =~= orig);
    e
}

fn flatten_into<'a>(e: &'a ETerm, out: &mut Vec<&'a ETerm>) -> (r: &'a ETerm)
    ensures
        *r == spec_flatten(*e).0,
        deref_seq(final(out)@) == deref_seq(old(out)@) + spec_flatten(*e).1,
    decreases e,
{
    match e {
        ETerm::App(f, x) => {
            let h = flatten_into(f, out);
            let ghost mid = out@;
            out.push(&**x);
            proof {
                assert(deref_seq(out@) =~= deref_seq(mid).push(**x));
                assert(deref_seq(out@) =~= deref_seq(old(out)@) + spec_flatten(*e).1);
            }
            h
        },
        _ => {
            assert(deref_seq(out@) =~= deref_seq(old(out)@) + spec_flatten(*e).1);
            e
        },
    }
}

pub open spec fn deref_seq(s: Seq<&ETerm>) -> Seq<ETerm> {
    s.map_values(|r: &ETerm| *r)
}

fn range_slots(n: usize) -> (r: Vec<usize>)
    ensures
        r@.len() == n,
        forall|k: int| 0 <= k < n ==> #[trigger] r@[k] == k,
{
    let mut r: Vec<usize> = Vec::new();
    let mut k: usize = 0;
    while k < n
        invariant
            k <= n,
            r@.len() == k,
            forall|m: int| 0 <= m < k ==> #[trigger] r@[m] == m,
        decreases n - k,
    {
        r.push(k);
        k = k + 1;
    }
    r
}

/// What an operation denotes.
pub enum MOp {
    Constr(usize, usize, Seq<usize>),
    Call(usize, Seq<usize>),
}

/// What code denotes: the same tree, with sequences for vectors.
pub enum MExpr {
    Ret(usize),
    Let(MOp, Box<MExpr>),
    Case(usize, usize, Seq<MBranch>),
}

/// What a case branch denotes.
pub struct MBranch {
    pub nbind: usize,
    pub body: MExpr,
}

/// What a function denotes.
pub struct MFunc {
    pub nparams: usize,
    pub body: MExpr,
}

pub open spec fn mop(o: Op) -> MOp {
    match o {
        Op::Constr(i, j, fs) => MOp::Constr(i, j, fs@),
        Op::Call(f, args) => MOp::Call(f, args@),
    }
}

pub open spec fn mops(s: Seq<Op>) -> Seq<MOp> {
    s.map_values(|o: Op| mop(o))
}

pub open spec fn mexpr(e: Expr) -> MExpr
    decreases e,
{
    match e {
        Expr::Ret(s) => MExpr::Ret(s),
        Expr::Let(o, rest) => MExpr::Let(mop(o), Box::new(mexpr(*rest))),
        Expr::Case(i, scrut, bs) => MExpr::Case(i, scrut, mbranches(bs@)),
    }
}

pub open spec fn mbranches(bs: Seq<Branch>) -> Seq<MBranch>
    decreases bs,
{
    if bs.len() == 0 {
        Seq::empty()
    } else {
        mbranches(bs.drop_last()).push(MBranch { nbind: bs.last().nbind, body: mexpr(bs.last().body) })
    }
}

pub open spec fn mfunc(f: Func) -> MFunc {
    MFunc { nparams: f.nparams, body: mexpr(f.body) }
}

pub open spec fn mfuncs(s: Seq<Func>) -> Seq<MFunc> {
    s.map_values(|f: Func| mfunc(f))
}

proof fn lemma_mbranches_push(bs: Seq<Branch>, b: Branch)
    ensures
        mbranches(bs.push(b)) == mbranches(bs).push(MBranch { nbind: b.nbind, body: mexpr(b.body) }),
{
    assert(bs.push(b).drop_last() =~= bs);
}

/// The code `let ops[0]; ...; let ops[n-1]; ret`.
pub open spec fn spec_seal(ops: Seq<MOp>, ret: usize) -> MExpr
    decreases ops.len(),
{
    if ops.len() == 0 {
        MExpr::Ret(ret)
    } else {
        MExpr::Let(ops[0], Box::new(spec_seal(ops.drop_first(), ret)))
    }
}

/// The body of a term under its leading λ-binders.
pub open spec fn spec_strip(e: ETerm) -> ETerm
    decreases e,
{
    match e {
        ETerm::Lam(b) => spec_strip(*b),
        _ => e,
    }
}

/// The body under exactly `n` leading λ-binders; `None` where there are
/// fewer.
pub open spec fn spec_peel(e: ETerm, n: nat) -> Option<ETerm>
    decreases n,
{
    if n == 0 {
        Some(e)
    } else {
        match e {
            ETerm::Lam(b) => spec_peel(*b, (n - 1) as nat),
            _ => None,
        }
    }
}

pub proof fn lemma_strip_size(e: ETerm)
    ensures
        spec_esize(spec_strip(e)) <= spec_esize(e),
        e is Lam ==> spec_esize(spec_strip(e)) < spec_esize(e),
    decreases e,
{
    if let ETerm::Lam(b) = e {
        lemma_strip_size(*b);
    }
}

pub proof fn lemma_peel_size(e: ETerm, n: nat)
    ensures
        spec_peel(e, n) matches Some(x) ==> spec_esize(x) <= spec_esize(e),
    decreases n,
{
    if n > 0 {
        if let ETerm::Lam(b) = e {
            lemma_peel_size(*b, (n - 1) as nat);
        }
    }
}

/// The slots `0..n`.
pub open spec fn spec_range(n: nat) -> Seq<usize> {
    Seq::new(n, |k: int| k as usize)
}

/// The calls that a case branch makes before its method's body: one call
/// of function `idx` for each field among `cargs[..f]` that is a recursive
/// occurrence of `i`, on the slots `0..cap` and the field's slot.
pub open spec fn spec_rec_calls(cargs: Seq<Term>, i: usize, f: int, idx: usize, cap: usize) -> Seq<
    MOp,
>
    decreases f,
{
    if f <= 0 {
        Seq::empty()
    } else if spec_ind_head(cargs[f - 1]) == Some(i) {
        spec_rec_calls(cargs, i, f - 1, idx, cap).push(
            MOp::Call(idx, spec_range(cap as nat).push((cap + 1 + f - 1) as usize)),
        )
    } else {
        spec_rec_calls(cargs, i, f - 1, idx, cap)
    }
}

/// Building `e` into `ops` (whose first slot is `base`), with `env` mapping
/// de Bruijn indices to slots: the new state and the slot of the value;
/// `None` outside the first-order fragment.
pub open spec fn spec_build(
    sig: Sig,
    funcs: Seq<MFunc>,
    ops: Seq<MOp>,
    base: usize,
    e: ETerm,
    env: Seq<usize>,
) -> Option<(Seq<MFunc>, Seq<MOp>, usize)>
    decreases spec_esize(e), 3nat, 0nat,
{
    match e {
        ETerm::Var(i) => if i < env.len() {
            Some((funcs, ops, env[env.len() - 1 - i]))
        } else {
            None
        },
        ETerm::Constr(i, j) => if ops.len() > usize::MAX - base {
            None
        } else {
            Some((funcs, ops.push(MOp::Constr(i, j, Seq::empty())), (base + ops.len()) as usize))
        },
        ETerm::App(..) => spec_build_app(sig, funcs, ops, base, e, env),
        _ => None,
    }
}

/// Building the arguments `spec_flatten(e).1[q..]` in turn, appending
/// their slots to `acc`; an erased argument gets the slot `usize::MAX`
/// where `keep_box` holds and is skipped otherwise.
pub open spec fn spec_build_slots(
    sig: Sig,
    funcs: Seq<MFunc>,
    ops: Seq<MOp>,
    base: usize,
    e: ETerm,
    env: Seq<usize>,
    q: int,
    acc: Seq<usize>,
    keep_box: bool,
) -> Option<(Seq<MFunc>, Seq<MOp>, Seq<usize>)>
    decreases spec_esize(e), 0nat, spec_flatten(e).1.len() - q,
{
    let args = spec_flatten(e).1;
    if q < 0 || q >= args.len() {
        Some((funcs, ops, acc))
    } else if args[q] is Box {
        spec_build_slots(
            sig,
            funcs,
            ops,
            base,
            e,
            env,
            q + 1,
            if keep_box {
                acc.push(usize::MAX)
            } else {
                acc
            },
            keep_box,
        )
    } else {
        proof {
            lemma_flatten_sizes(e);
        }
        match spec_build(sig, funcs, ops, base, args[q], env) {
            None => None,
            Some((f2, o2, s)) => spec_build_slots(
                sig,
                f2,
                o2,
                base,
                e,
                env,
                q + 1,
                acc.push(s),
                keep_box,
            ),
        }
    }
}

/// Building an application: a β-redex binds its arguments' slots, a
/// constructor application builds the value, a recursor application
/// compiles to a call of a new function.
pub open spec fn spec_build_app(
    sig: Sig,
    funcs: Seq<MFunc>,
    ops: Seq<MOp>,
    base: usize,
    e: ETerm,
    env: Seq<usize>,
) -> Option<(Seq<MFunc>, Seq<MOp>, usize)>
    decreases spec_esize(e), 2nat, 0nat,
{
    let head = spec_flatten(e).0;
    match head {
        ETerm::Lam(_) => match spec_build_slots(
            sig,
            funcs,
            ops,
            base,
            e,
            env,
            0,
            Seq::empty(),
            true,
        ) {
            None => None,
            Some((f1, o1, slots)) => if spec_lambda_count(head) == slots.len() {
                proof {
                    lemma_flatten_sizes(e);
                    lemma_strip_size(head);
                }
                spec_build(sig, f1, o1, base, spec_strip(head), env + slots)
            } else {
                None
            },
        },
        ETerm::Constr(i, j) => match spec_build_slots(
            sig,
            funcs,
            ops,
            base,
            e,
            env,
            0,
            Seq::empty(),
            false,
        ) {
            None => None,
            Some((f1, o1, fs)) => if o1.len() > usize::MAX - base {
                None
            } else {
                Some((f1, o1.push(MOp::Constr(i, j, fs)), (base + o1.len()) as usize))
            },
        },
        ETerm::Rec(i) => spec_build_rec(sig, funcs, ops, base, i, e, env),
        _ => None,
    }
}

/// Building a recursor application on inductive `i` (arguments: the
/// parameters, the motive, the methods, the indices and the major
/// premise): the major premise is built, then a new function whose body
/// cases on it, with one branch per method, and a call of it.
pub open spec fn spec_build_rec(
    sig: Sig,
    funcs: Seq<MFunc>,
    ops: Seq<MOp>,
    base: usize,
    i: usize,
    e: ETerm,
    env: Seq<usize>,
) -> Option<(Seq<MFunc>, Seq<MOp>, usize)>
    decreases spec_esize(e), 1nat, 0nat,
{
    let args = spec_flatten(e).1;
    if i >= sig@.len() {
        None
    } else {
        let ind = sig@[i as int];
        let p = ind.params@.len();
        let k = ind.constructors@.len();
        let n = ind.indices@.len();
        if p > usize::MAX / 4 || k > usize::MAX / 4 || n > usize::MAX / 4 {
            None
        } else if args.len() <= p + 1 + k + n {
            None
        } else {
            proof {
                lemma_flatten_sizes(e);
            }
            match spec_build(sig, funcs, ops, base, args[(p + 1 + k + n) as int], env) {
                None => None,
                Some((f1, o1, major_slot)) => if o1.len() > usize::MAX / 4 || base > usize::MAX
                    / 4 || f1.len() >= usize::MAX {
                    None
                } else {
                    let cap = (base + o1.len()) as usize;
                    let idx = f1.len() as usize;
                    let f2 = f1.push(MFunc { nparams: 0, body: MExpr::Ret(0) });
                    match spec_build_branches(sig, f2, i, e, env, cap, idx, 0, Seq::empty()) {
                        None => None,
                        Some((f3, branches)) => Some(
                            (
                                f3.update(
                                    idx as int,
                                    MFunc {
                                        nparams: (cap + 1) as usize,
                                        body: MExpr::Case(i, cap, branches),
                                    },
                                ),
                                o1.push(MOp::Call(idx, spec_range(cap as nat).push(major_slot))),
                                (base + o1.len()) as usize,
                            ),
                        ),
                    }
                },
            }
        }
    }
}

/// Building the case branches `j..` of a recursor's function, appending
/// them to `acc`: a branch binds the constructor's fields after the slots
/// `0..=cap`, calls the function on each recursive field, and runs the
/// method's body with the fields and the recursive results bound.
pub open spec fn spec_build_branches(
    sig: Sig,
    funcs: Seq<MFunc>,
    i: usize,
    e: ETerm,
    env: Seq<usize>,
    cap: usize,
    idx: usize,
    j: int,
    acc: Seq<MBranch>,
) -> Option<(Seq<MFunc>, Seq<MBranch>)>
    decreases spec_esize(e), 0nat, sig@[i as int].constructors@.len() - j,
{
    let args = spec_flatten(e).1;
    let ind = sig@[i as int];
    let p = ind.params@.len();
    if j < 0 || j >= ind.constructors@.len() {
        Some((funcs, acc))
    } else if p + 1 + j >= args.len() {
        None
    } else {
        let method = args[p + 1 + j];
        let cargs = ind.constructors@[j].args@;
        let nbind = cargs.len();
        if nbind > usize::MAX / 4 {
            None
        } else {
            let field_base = (cap + 1) as usize;
            let calls = spec_rec_calls(cargs, i, nbind as int, idx, cap);
            let menv = env + Seq::new(nbind, |f: int| (field_base + f) as usize) + Seq::new(
                calls.len(),
                |r: int| (field_base + nbind + r) as usize,
            );
            match spec_peel(method, nbind + calls.len()) {
                None => None,
                Some(m) => {
                    proof {
                        lemma_flatten_sizes(e);
                        lemma_peel_size(method, nbind + calls.len());
                    }
                    match spec_build(
                        sig,
                        funcs,
                        calls,
                        (field_base + nbind) as usize,
                        m,
                        menv,
                    ) {
                        None => None,
                        Some((f2, bops, result)) => spec_build_branches(
                            sig,
                            f2,
                            i,
                            e,
                            env,
                            cap,
                            idx,
                            j + 1,
                            acc.push(MBranch { nbind: nbind as usize, body: spec_seal(bops, result) }),
                        ),
                    }
                },
            }
        }
    }
}

/// What compiling `e` gives: the functions of the program and the index of
/// its entry; `None` outside the first-order fragment.
pub open spec fn spec_compile(sig: Sig, e: ETerm) -> Option<(Seq<MFunc>, usize)> {
    let nparams = spec_lambda_count(e);
    if nparams > usize::MAX {
        None
    } else {
        match spec_build(
            sig,
            Seq::empty(),
            Seq::empty(),
            nparams as usize,
            spec_strip(e),
            spec_range(nparams),
        ) {
            None => None,
            Some((funcs, ops, slot)) => Some(
                (
                    funcs.push(MFunc { nparams: nparams as usize, body: spec_seal(ops, slot) }),
                    funcs.len() as usize,
                ),
            ),
        }
    }
}

/// The number of parameters of function `f`, where the functions whose
/// bodies are still being built have their promised number in `pend`.
pub open spec fn spec_arity(fs: Seq<MFunc>, pend: Map<int, nat>, f: int) -> nat {
    if pend.dom().contains(f) {
        pend[f]
    } else {
        fs[f].nparams as nat
    }
}

/// Whether an operation's call, if it is one, names one of `fs` and passes
/// as many arguments as that function takes.
pub open spec fn spec_op_calls_ok(o: MOp, fs: Seq<MFunc>, pend: Map<int, nat>) -> bool {
    match o {
        MOp::Call(f, args) => f < fs.len() && args.len() == spec_arity(fs, pend, f as int),
        MOp::Constr(..) => true,
    }
}

/// Whether every call in code names one of `fs` and passes as many
/// arguments as that function takes.
pub open spec fn spec_expr_calls_ok(e: MExpr, fs: Seq<MFunc>, pend: Map<int, nat>) -> bool
    decreases e,
{
    match e {
        MExpr::Ret(_) => true,
        MExpr::Let(o, rest) => spec_op_calls_ok(o, fs, pend) && spec_expr_calls_ok(*rest, fs, pend),
        MExpr::Case(_, _, bs) => spec_branches_calls_ok(bs, fs, pend),
    }
}

pub open spec fn spec_branches_calls_ok(bs: Seq<MBranch>, fs: Seq<MFunc>, pend: Map<int, nat>) -> bool
    decreases bs,
{
    if bs.len() == 0 {
        true
    } else {
        spec_branches_calls_ok(bs.drop_last(), fs, pend) && spec_expr_calls_ok(
            bs.last().body,
            fs,
            pend,
        )
    }
}

pub open spec fn spec_ops_calls_ok(ops: Seq<MOp>, fs: Seq<MFunc>, pend: Map<int, nat>) -> bool {
    forall|k: int| 0 <= k < ops.len() ==> spec_op_calls_ok(#[trigger] ops[k], fs, pend)
}

pub open spec fn spec_funcs_calls_ok(fs: Seq<MFunc>, pend: Map<int, nat>) -> bool {
    forall|k: int| 0 <= k < fs.len() ==> spec_expr_calls_ok(#[trigger] fs[k].body, fs, pend)
}

/// Whether `(fs2, pend2)` gives every function of `(fs, pend)` the same
/// number of parameters.
pub open spec fn spec_arities_kept(
    fs: Seq<MFunc>,
    pend: Map<int, nat>,
    fs2: Seq<MFunc>,
    pend2: Map<int, nat>,
) -> bool {
    &&& fs2.len() >= fs.len()
    &&& forall|f: int| 0 <= f < fs.len() ==> #[trigger] spec_arity(fs2, pend2, f) == spec_arity(fs, pend, f)
}

proof fn lemma_calls_ok_kept(e: MExpr, fs: Seq<MFunc>, pend: Map<int, nat>, fs2: Seq<MFunc>, pend2: Map<int, nat>)
    requires
        spec_expr_calls_ok(e, fs, pend),
        spec_arities_kept(fs, pend, fs2, pend2),
    ensures
        spec_expr_calls_ok(e, fs2, pend2),
    decreases e,
{
    match e {
        MExpr::Ret(_) => {},
        MExpr::Let(o, rest) => {
            if let MOp::Call(f, _) = o {
                assert(spec_arity(fs2, pend2, f as int) == spec_arity(fs, pend, f as int));
            }
            lemma_calls_ok_kept(*rest, fs, pend, fs2, pend2);
        },
        MExpr::Case(_, _, bs) => lemma_branches_calls_ok_kept(bs, fs, pend, fs2, pend2),
    }
}

proof fn lemma_branches_calls_ok_kept(
    bs: Seq<MBranch>,
    fs: Seq<MFunc>,
    pend: Map<int, nat>,
    fs2: Seq<MFunc>,
    pend2: Map<int, nat>,
)
    requires
        spec_branches_calls_ok(bs, fs, pend),
        spec_arities_kept(fs, pend, fs2, pend2),
    ensures
        spec_branches_calls_ok(bs, fs2, pend2),
    decreases bs,
{
    if bs.len() > 0 {
        lemma_branches_calls_ok_kept(bs.drop_last(), fs, pend, fs2, pend2);
        lemma_calls_ok_kept(bs.last().body, fs, pend, fs2, pend2);
    }
}

proof fn lemma_ops_calls_ok_kept(ops: Seq<MOp>, fs: Seq<MFunc>, pend: Map<int, nat>, fs2: Seq<MFunc>, pend2: Map<int, nat>)
    requires
        spec_ops_calls_ok(ops, fs, pend),
        spec_arities_kept(fs, pend, fs2, pend2),
    ensures
        spec_ops_calls_ok(ops, fs2, pend2),
{
    assert forall|k: int| 0 <= k < ops.len() implies spec_op_calls_ok(#[trigger] ops[k], fs2, pend2) by {
        if let MOp::Call(f, _) = ops[k] {
            assert(spec_arity(fs2, pend2, f as int) == spec_arity(fs, pend, f as int));
        }
    }
}

proof fn lemma_seal_calls_ok(ops: Seq<MOp>, ret: usize, fs: Seq<MFunc>, pend: Map<int, nat>)
    requires
        spec_ops_calls_ok(ops, fs, pend),
    ensures
        spec_expr_calls_ok(spec_seal(ops, ret), fs, pend),
    decreases ops.len(),
{
    if ops.len() > 0 {
        assert(spec_op_calls_ok(ops[0], fs, pend));
        assert forall|k: int| 0 <= k < ops.drop_first().len() implies spec_op_calls_ok(
            #[trigger] ops.drop_first()[k],
            fs,
            pend,
        ) by {
            assert(ops.drop_first()[k] == ops[k + 1]);
        }
        lemma_seal_calls_ok(ops.drop_first(), ret, fs, pend);
    }
}

proof fn lemma_ops_push_ok(ops: Seq<MOp>, op: MOp, fs: Seq<MFunc>, pend: Map<int, nat>)
    requires
        spec_ops_calls_ok(ops, fs, pend),
        spec_op_calls_ok(op, fs, pend),
    ensures
        spec_ops_calls_ok(ops.push(op), fs, pend),
{
    assert forall|k: int| 0 <= k < ops.push(op).len() implies spec_op_calls_ok(
        #[trigger] ops.push(op)[k],
        fs,
        pend,
    ) by {
        if k < ops.len() {
            assert(ops.push(op)[k] == ops[k]);
        }
    }
}

proof fn lemma_rec_calls_ok(
    cargs: Seq<Term>,
    i: usize,
    f: int,
    idx: usize,
    cap: usize,
    fs: Seq<MFunc>,
    pend: Map<int, nat>,
)
    requires
        idx < fs.len(),
        spec_arity(fs, pend, idx as int) == cap + 1,
    ensures
        spec_ops_calls_ok(spec_rec_calls(cargs, i, f, idx, cap), fs, pend),
    decreases f,
{
    if f > 0 {
        lemma_rec_calls_ok(cargs, i, f - 1, idx, cap, fs, pend);
        if spec_ind_head(cargs[f - 1]) == Some(i) {
            let op = MOp::Call(idx, spec_range(cap as nat).push((cap + 1 + f - 1) as usize));
            lemma_ops_push_ok(spec_rec_calls(cargs, i, f - 1, idx, cap), op, fs, pend);
        }
    }
}

/// What building keeps, with the functions in `pend` still being built:
/// earlier functions stay as they are, and every call in the functions and
/// the operations names an existing function with its number of
/// parameters.
pub open spec fn spec_build_keeps_calls(
    funcs: Seq<MFunc>,
    pend: Map<int, nat>,
    r: Option<(Seq<MFunc>, Seq<MOp>, usize)>,
) -> bool {
    r matches Some((f2, o2, _)) ==> {
        &&& f2.len() >= funcs.len()
        &&& f2.subrange(0, funcs.len() as int) == funcs
        &&& spec_funcs_calls_ok(f2, pend)
        &&& spec_ops_calls_ok(o2, f2, pend)
    }
}

/// The conditions under which building keeps calls well-formed.
pub open spec fn spec_build_pre(funcs: Seq<MFunc>, ops: Seq<MOp>, pend: Map<int, nat>) -> bool {
    &&& spec_funcs_calls_ok(funcs, pend)
    &&& spec_ops_calls_ok(ops, funcs, pend)
    &&& forall|f: int| #[trigger] pend.dom().contains(f) ==> 0 <= f < funcs.len()
}

proof fn lemma_prefix_kept(fs: Seq<MFunc>, fs2: Seq<MFunc>, pend: Map<int, nat>)
    requires
        fs2.len() >= fs.len(),
        fs2.subrange(0, fs.len() as int) == fs,
    ensures
        spec_arities_kept(fs, pend, fs2, pend),
{
    assert forall|f: int| 0 <= f < fs.len() implies #[trigger] spec_arity(fs2, pend, f) == spec_arity(fs, pend, f) by {
        assert(fs2.subrange(0, fs.len() as int)[f] == fs2[f]);
    }
}

proof fn lemma_build_calls_ok(
    sig: Sig,
    funcs: Seq<MFunc>,
    ops: Seq<MOp>,
    base: usize,
    e: ETerm,
    env: Seq<usize>,
    pend: Map<int, nat>,
)
    requires
        spec_build_pre(funcs, ops, pend),
    ensures
        spec_build_keeps_calls(funcs, pend, spec_build(sig, funcs, ops, base, e, env)),
    decreases spec_esize(e), 3nat, 0nat,
{
    assert(funcs.subrange(0, funcs.len() as int) =~= funcs);
    match e {
        ETerm::Constr(i, j) => {
            lemma_ops_push_ok(ops, MOp::Constr(i, j, Seq::empty()), funcs, pend);
        },
        ETerm::App(..) => lemma_build_app_calls_ok(sig, funcs, ops, base, e, env, pend),
        _ => {},
    }
}

proof fn lemma_build_slots_calls_ok(
    sig: Sig,
    funcs: Seq<MFunc>,
    ops: Seq<MOp>,
    base: usize,
    e: ETerm,
    env: Seq<usize>,
    q: int,
    acc: Seq<usize>,
    keep_box: bool,
    pend: Map<int, nat>,
)
    requires
        spec_build_pre(funcs, ops, pend),
    ensures
        spec_build_slots(sig, funcs, ops, base, e, env, q, acc, keep_box) matches Some(
            (f2, o2, _),
        ) ==> {
            &&& f2.len() >= funcs.len()
            &&& f2.subrange(0, funcs.len() as int) == funcs
            &&& spec_funcs_calls_ok(f2, pend)
            &&& spec_ops_calls_ok(o2, f2, pend)
        },
    decreases spec_esize(e), 0nat, spec_flatten(e).1.len() - q,
{
    let args = spec_flatten(e).1;
    assert(funcs.subrange(0, funcs.len() as int) =~= funcs);
    if q < 0 || q >= args.len() {
    } else if args[q] is Box {
        lemma_build_slots_calls_ok(
            sig,
            funcs,
            ops,
            base,
            e,
            env,
            q + 1,
            if keep_box {
                acc.push(usize::MAX)
            } else {
                acc
            },
            keep_box,
            pend,
        );
    } else {
        lemma_flatten_sizes(e);
        lemma_build_calls_ok(sig, funcs, ops, base, args[q], env, pend);
        match spec_build(sig, funcs, ops, base, args[q], env) {
            None => {},
            Some((f2, o2, s)) => {
                lemma_build_slots_calls_ok(sig, f2, o2, base, e, env, q + 1, acc.push(s), keep_box, pend);
                match spec_build_slots(sig, f2, o2, base, e, env, q + 1, acc.push(s), keep_box) {
                    None => {},
                    Some((f3, o3, _)) => {
                        assert(f3.subrange(0, funcs.len() as int) =~= f3.subrange(0, f2.len() as int).subrange(0, funcs.len() as int));
                    },
                }
            },
        }
    }
}

proof fn lemma_build_app_calls_ok(
    sig: Sig,
    funcs: Seq<MFunc>,
    ops: Seq<MOp>,
    base: usize,
    e: ETerm,
    env: Seq<usize>,
    pend: Map<int, nat>,
)
    requires
        spec_build_pre(funcs, ops, pend),
    ensures
        spec_build_keeps_calls(funcs, pend, spec_build_app(sig, funcs, ops, base, e, env)),
    decreases spec_esize(e), 2nat, 0nat,
{
    let head = spec_flatten(e).0;
    match head {
        ETerm::Lam(_) => {
            lemma_build_slots_calls_ok(sig, funcs, ops, base, e, env, 0, Seq::empty(), true, pend);
            match spec_build_slots(sig, funcs, ops, base, e, env, 0, Seq::empty(), true) {
                None => {},
                Some((f1, o1, slots)) => if spec_lambda_count(head) == slots.len() {
                    lemma_flatten_sizes(e);
                    lemma_strip_size(head);
                    lemma_build_calls_ok(sig, f1, o1, base, spec_strip(head), env + slots, pend);
                    match spec_build(sig, f1, o1, base, spec_strip(head), env + slots) {
                        None => {},
                        Some((f2, o2, _)) => {
                            assert(f2.subrange(0, funcs.len() as int) =~= f2.subrange(0, f1.len() as int).subrange(0, funcs.len() as int));
                        },
                    }
                },
            }
        },
        ETerm::Constr(i, j) => {
            lemma_build_slots_calls_ok(sig, funcs, ops, base, e, env, 0, Seq::empty(), false, pend);
            match spec_build_slots(sig, funcs, ops, base, e, env, 0, Seq::empty(), false) {
                None => {},
                Some((f1, o1, fs)) => {
                    lemma_ops_push_ok(o1, MOp::Constr(i, j, fs), f1, pend);
                },
            }
        },
        ETerm::Rec(i) => lemma_build_rec_calls_ok(sig, funcs, ops, base, i, e, env, pend),
        _ => {},
    }
}

#[verifier::rlimit(40)]
proof fn lemma_build_rec_calls_ok(
    sig: Sig,
    funcs: Seq<MFunc>,
    ops: Seq<MOp>,
    base: usize,
    i: usize,
    e: ETerm,
    env: Seq<usize>,
    pend: Map<int, nat>,
)
    requires
        spec_build_pre(funcs, ops, pend),
    ensures
        spec_build_keeps_calls(funcs, pend, spec_build_rec(sig, funcs, ops, base, i, e, env)),
    decreases spec_esize(e), 1nat, 0nat,
{
    let args = spec_flatten(e).1;
    if i < sig@.len() {
        let ind = sig@[i as int];
        let p = ind.params@.len();
        let k = ind.constructors@.len();
        let n = ind.indices@.len();
        if !(p > usize::MAX / 4 || k > usize::MAX / 4 || n > usize::MAX / 4) && args.len() > p
            + 1 + k + n {
            lemma_flatten_sizes(e);
            let major = args[(p + 1 + k + n) as int];
            lemma_build_calls_ok(sig, funcs, ops, base, major, env, pend);
            match spec_build(sig, funcs, ops, base, major, env) {
                None => {},
                Some((f1, o1, major_slot)) => if !(o1.len() > usize::MAX / 4 || base
                    > usize::MAX / 4 || f1.len() >= usize::MAX) {
                    let cap = (base + o1.len()) as usize;
                    let idx = f1.len() as usize;
                    let ph = MFunc { nparams: 0, body: MExpr::Ret(0) };
                    let f2 = f1.push(ph);
                    let pend2 = pend.insert(idx as int, (cap + 1) as nat);
                    // the functions built so far, with the new one pending
                    assert(spec_arities_kept(f1, pend, f2, pend2)) by {
                        assert forall|f: int| 0 <= f < f1.len() implies #[trigger] spec_arity(f2, pend2, f) == spec_arity(f1, pend, f) by {
                            assert(f2[f] == f1[f]);
                        }
                    }
                    assert(spec_funcs_calls_ok(f2, pend2)) by {
                        assert forall|m: int| 0 <= m < f2.len() implies spec_expr_calls_ok(#[trigger] f2[m].body, f2, pend2) by {
                            if m < f1.len() {
                                assert(f2[m] == f1[m]);
                                lemma_calls_ok_kept(f1[m].body, f1, pend, f2, pend2);
                            }
                        }
                    }
                    assert(spec_arity(f2, pend2, idx as int) == cap + 1);
                    lemma_build_branches_calls_ok(sig, f2, i, e, env, cap, idx, 0, Seq::empty(), pend2);
                    match spec_build_branches(sig, f2, i, e, env, cap, idx, 0, Seq::empty()) {
                        None => {},
                        Some((f3, branches)) => {
                            let func = MFunc {
                                nparams: (cap + 1) as usize,
                                body: MExpr::Case(i, cap, branches),
                            };
                            let f4 = f3.update(idx as int, func);
                            assert(f3[idx as int] == f3.subrange(0, f2.len() as int)[idx as int]);
                            assert(spec_arities_kept(f3, pend2, f4, pend)) by {
                                assert forall|f: int| 0 <= f < f3.len() implies #[trigger] spec_arity(f4, pend, f) == spec_arity(f3, pend2, f) by {
                                    if f != idx {
                                        assert(f4[f] == f3[f]);
                                    }
                                }
                            }
                            assert forall|m: int| 0 <= m < f4.len() implies spec_expr_calls_ok(#[trigger] f4[m].body, f4, pend) by {
                                if m != idx {
                                    assert(f4[m] == f3[m]);
                                    lemma_calls_ok_kept(f3[m].body, f3, pend2, f4, pend);
                                } else {
                                    lemma_branches_calls_ok_kept(branches, f3, pend2, f4, pend);
                                }
                            }
                            assert(spec_arities_kept(f1, pend, f4, pend)) by {
                                assert forall|f: int| 0 <= f < f1.len() implies #[trigger] spec_arity(f4, pend, f) == spec_arity(f1, pend, f) by {
                                    assert(f4[f] == f3[f]);
                                    assert(f3[f] == f3.subrange(0, f2.len() as int)[f]);
                                    assert(f2[f] == f1[f]);
                                }
                            }
                            lemma_ops_calls_ok_kept(o1, f1, pend, f4, pend);
                            let op = MOp::Call(idx, spec_range(cap as nat).push(major_slot));
                            lemma_ops_push_ok(o1, op, f4, pend);
                            assert(f4.subrange(0, funcs.len() as int) =~= funcs) by {
                                assert forall|m: int| 0 <= m < funcs.len() implies f4.subrange(0, funcs.len() as int)[m] == funcs[m] by {
                                    assert(f4[m] == f3[m]);
                                    assert(f3[m] == f3.subrange(0, f2.len() as int)[m]);
                                    assert(f2[m] == f1[m]);
                                    assert(f1[m] == f1.subrange(0, funcs.len() as int)[m]);
                                }
                            }
                        },
                    }
                },
            }
        }
    }
}

#[verifier::rlimit(40)]
proof fn lemma_build_branches_calls_ok(
    sig: Sig,
    funcs: Seq<MFunc>,
    i: usize,
    e: ETerm,
    env: Seq<usize>,
    cap: usize,
    idx: usize,
    j: int,
    acc: Seq<MBranch>,
    pend: Map<int, nat>,
)
    requires
        spec_build_pre(funcs, Seq::empty(), pend),
        idx < funcs.len(),
        spec_arity(funcs, pend, idx as int) == cap + 1,
        spec_branches_calls_ok(acc, funcs, pend),
    ensures
        spec_build_branches(sig, funcs, i, e, env, cap, idx, j, acc) matches Some((f2, bs)) ==> {
            &&& f2.len() >= funcs.len()
            &&& f2.subrange(0, funcs.len() as int) == funcs
            &&& spec_funcs_calls_ok(f2, pend)
            &&& spec_branches_calls_ok(bs, f2, pend)
        },
    decreases spec_esize(e), 0nat, sig@[i as int].constructors@.len() - j,
{
    let args = spec_flatten(e).1;
    let ind = sig@[i as int];
    let p = ind.params@.len();
    assert(funcs.subrange(0, funcs.len() as int) =~= funcs);
    if j < 0 || j >= ind.constructors@.len() {
    } else if p + 1 + j >= args.len() {
    } else {
        let method = args[p + 1 + j];
        let cargs = ind.constructors@[j].args@;
        let nbind = cargs.len();
        if nbind <= usize::MAX / 4 {
            let field_base = (cap + 1) as usize;
            let calls = spec_rec_calls(cargs, i, nbind as int, idx, cap);
            let menv = env + Seq::new(nbind, |f: int| (field_base + f) as usize) + Seq::new(
                calls.len(),
                |r: int| (field_base + nbind + r) as usize,
            );
            match spec_peel(method, nbind + calls.len()) {
                None => {},
                Some(m) => {
                    lemma_flatten_sizes(e);
                    lemma_peel_size(method, nbind + calls.len());
                    lemma_rec_calls_ok(cargs, i, nbind as int, idx, cap, funcs, pend);
                    lemma_build_calls_ok(sig, funcs, calls, (field_base + nbind) as usize, m, menv, pend);
                    match spec_build(sig, funcs, calls, (field_base + nbind) as usize, m, menv) {
                        None => {},
                        Some((f2, bops, result)) => {
                            let b = MBranch { nbind: nbind as usize, body: spec_seal(bops, result) };
                            lemma_seal_calls_ok(bops, result, f2, pend);
                            lemma_prefix_kept(funcs, f2, pend);
                            lemma_branches_calls_ok_kept(acc, funcs, pend, f2, pend);
                            assert(acc.push(b).drop_last() =~= acc);
                            assert(spec_arity(f2, pend, idx as int) == spec_arity(funcs, pend, idx as int));
                            lemma_build_branches_calls_ok(
                                sig,
                                f2,
                                i,
                                e,
                                env,
                                cap,
                                idx,
                                j + 1,
                                acc.push(b),
                                pend,
                            );
                            match spec_build_branches(sig, f2, i, e, env, cap, idx, j + 1, acc.push(b)) {
                                None => {},
                                Some((f3, _)) => {
                                    assert(f3.subrange(0, funcs.len() as int) =~= f3.subrange(0, f2.len() as int).subrange(0, funcs.len() as int));
                                },
                            }
                        },
                    }
                },
            }
        }
    }
}

/// Law: every call in a compiled program names one of its functions and
/// passes as many arguments as that function takes, and the entry is one
/// of its functions.
pub proof fn lemma_compiled_calls_match(sig: Sig, e: ETerm)
    requires
        spec_compile(sig, e) is Some,
    ensures
        spec_funcs_calls_ok(spec_compile(sig, e).unwrap().0, Map::empty()),
        spec_compile(sig, e).unwrap().1 < spec_compile(sig, e).unwrap().0.len(),
{
    let nparams = spec_lambda_count(e);
    let empty_f = Seq::<MFunc>::empty();
    let empty_o = Seq::<MOp>::empty();
    let pend = Map::<int, nat>::empty();
    lemma_build_calls_ok(sig, empty_f, empty_o, nparams as usize, spec_strip(e), spec_range(nparams), pend);
    let (funcs, ops, slot) = spec_build(
        sig,
        empty_f,
        empty_o,
        nparams as usize,
        spec_strip(e),
        spec_range(nparams),
    )->0;
    let entry = MFunc { nparams: nparams as usize, body: spec_seal(ops, slot) };
    let fs = funcs.push(entry);
    assert(spec_arities_kept(funcs, pend, fs, pend)) by {
        assert forall|f: int| 0 <= f < funcs.len() implies #[trigger] spec_arity(fs, pend, f) == spec_arity(funcs, pend, f) by {
            assert(fs[f] == funcs[f]);
        }
    }
    lemma_ops_calls_ok_kept(ops, funcs, pend, fs, pend);
    lemma_seal_calls_ok(ops, slot, fs, pend);
    assert forall|m: int| 0 <= m < fs.len() implies spec_expr_calls_ok(#[trigger] fs[m].body, fs, pend) by {
        if m < funcs.len() {
            assert(fs[m] == funcs[m]);
            lemma_calls_ok_kept(funcs[m].body, funcs, pend, fs, pend);
        }
    }
}

/// Whether slot `s` is one of the first `n` locals, or the slot
/// `usize::MAX` that stands for an erased argument.
pub open spec fn spec_slot_ok(s: usize, n: int) -> bool {
    s < n || s == usize::MAX
}

pub open spec fn spec_slots_ok(ss: Seq<usize>, n: int) -> bool {
    forall|k: int| 0 <= k < ss.len() ==> spec_slot_ok(#[trigger] ss[k], n)
}

/// Whether an operation, run with `n` locals, reads only defined slots.
pub open spec fn spec_op_slots_ok(o: MOp, n: int) -> bool {
    match o {
        MOp::Constr(_, _, fs) => spec_slots_ok(fs, n),
        MOp::Call(_, args) => spec_slots_ok(args, n),
    }
}

/// Whether code, run with `n` locals, reads only defined slots: each `let`
/// defines the next slot, and a case branch defines one slot per field it
/// binds.
pub open spec fn spec_expr_slots_ok(e: MExpr, n: int) -> bool
    decreases e,
{
    match e {
        MExpr::Ret(s) => spec_slot_ok(s, n),
        MExpr::Let(o, rest) => spec_op_slots_ok(o, n) && spec_expr_slots_ok(*rest, n + 1),
        MExpr::Case(_, scrut, bs) => spec_slot_ok(scrut, n) && spec_branches_slots_ok(bs, n),
    }
}

pub open spec fn spec_branches_slots_ok(bs: Seq<MBranch>, n: int) -> bool
    decreases bs,
{
    if bs.len() == 0 {
        true
    } else {
        spec_branches_slots_ok(bs.drop_last(), n) && spec_expr_slots_ok(
            bs.last().body,
            n + bs.last().nbind,
        )
    }
}

/// Whether the operations `ops`, the first of which runs with `base`
/// locals, read only defined slots.
pub open spec fn spec_ops_slots_ok(ops: Seq<MOp>, base: int) -> bool {
    forall|k: int| 0 <= k < ops.len() ==> spec_op_slots_ok(#[trigger] ops[k], base + k)
}

/// Whether every function outside `pend` reads only defined slots, given
/// its parameters.
pub open spec fn spec_funcs_slots_ok(fs: Seq<MFunc>, pend: Set<int>) -> bool {
    forall|k: int|
        0 <= k < fs.len() && !pend.contains(k) ==> spec_expr_slots_ok(
            #[trigger] fs[k].body,
            fs[k].nparams as int,
        )
}

proof fn lemma_seal_slots(ops: Seq<MOp>, ret: usize, base: int)
    requires
        spec_ops_slots_ok(ops, base),
        spec_slot_ok(ret, base + ops.len()),
    ensures
        spec_expr_slots_ok(spec_seal(ops, ret), base),
    decreases ops.len(),
{
    if ops.len() > 0 {
        assert(spec_op_slots_ok(ops[0], base + 0));
        assert forall|k: int| 0 <= k < ops.drop_first().len() implies spec_op_slots_ok(
            #[trigger] ops.drop_first()[k],
            (base + 1) + k,
        ) by {
            assert(ops.drop_first()[k] == ops[k + 1]);
        }
        lemma_seal_slots(ops.drop_first(), ret, base + 1);
    }
}

proof fn lemma_ops_push_slots(ops: Seq<MOp>, op: MOp, base: int)
    requires
        spec_ops_slots_ok(ops, base),
        spec_op_slots_ok(op, base + ops.len()),
    ensures
        spec_ops_slots_ok(ops.push(op), base),
{
    assert forall|k: int| 0 <= k < ops.push(op).len() implies spec_op_slots_ok(
        #[trigger] ops.push(op)[k],
        base + k,
    ) by {
        if k < ops.len() {
            assert(ops.push(op)[k] == ops[k]);
        }
    }
}

proof fn lemma_rec_calls_slots(cargs: Seq<Term>, i: usize, f: int, idx: usize, cap: usize, base: int)
    requires
        base >= cap + 1 + f,
    ensures
        spec_ops_slots_ok(spec_rec_calls(cargs, i, f, idx, cap), base),
        spec_rec_calls(cargs, i, f, idx, cap).len() <= if f < 0 { 0 } else { f },
    decreases f,
{
    if f > 0 {
        lemma_rec_calls_slots(cargs, i, f - 1, idx, cap, base);
        let prev = spec_rec_calls(cargs, i, f - 1, idx, cap);
        if spec_ind_head(cargs[f - 1]) == Some(i) {
            let args = spec_range(cap as nat).push((cap + 1 + f - 1) as usize);
            assert forall|k: int| 0 <= k < args.len() implies spec_slot_ok(
                #[trigger] args[k],
                base + prev.len(),
            ) by {}
            lemma_ops_push_slots(prev, MOp::Call(idx, args), base);
        }
    }
}

/// What building keeps for slots: the operations and the functions outside
/// `pend` read only defined slots, the value's slot is defined after the
/// operations, and earlier functions stay as they are.
pub open spec fn spec_build_keeps_slots(
    funcs: Seq<MFunc>,
    ops: Seq<MOp>,
    base: usize,
    pend: Set<int>,
    r: Option<(Seq<MFunc>, Seq<MOp>, usize)>,
) -> bool {
    r matches Some((f2, o2, s)) ==> {
        &&& f2.len() >= funcs.len()
        &&& f2.subrange(0, funcs.len() as int) == funcs
        &&& o2.len() >= ops.len()
        &&& spec_funcs_slots_ok(f2, pend)
        &&& spec_ops_slots_ok(o2, base as int)
        &&& spec_slot_ok(s, base + o2.len())
    }
}

/// The conditions under which building keeps slots defined.
pub open spec fn spec_slots_pre(
    funcs: Seq<MFunc>,
    ops: Seq<MOp>,
    base: usize,
    env: Seq<usize>,
    pend: Set<int>,
) -> bool {
    &&& spec_funcs_slots_ok(funcs, pend)
    &&& spec_ops_slots_ok(ops, base as int)
    &&& spec_slots_ok(env, base + ops.len())
    &&& forall|f: int| #[trigger] pend.contains(f) ==> 0 <= f < funcs.len()
}

proof fn lemma_slots_mono(ss: Seq<usize>, n: int, n2: int)
    requires
        spec_slots_ok(ss, n),
        n <= n2,
    ensures
        spec_slots_ok(ss, n2),
{
}

proof fn lemma_build_slots_ok(
    sig: Sig,
    funcs: Seq<MFunc>,
    ops: Seq<MOp>,
    base: usize,
    e: ETerm,
    env: Seq<usize>,
    pend: Set<int>,
)
    requires
        spec_slots_pre(funcs, ops, base, env, pend),
    ensures
        spec_build_keeps_slots(funcs, ops, base, pend, spec_build(sig, funcs, ops, base, e, env)),
    decreases spec_esize(e), 3nat, 0nat,
{
    assert(funcs.subrange(0, funcs.len() as int) =~= funcs);
    match e {
        ETerm::Var(i) => {
            if i < env.len() {
                assert(spec_slot_ok(env[env.len() - 1 - i], base + ops.len()));
            }
        },
        ETerm::Constr(i, j) => {
            lemma_ops_push_slots(ops, MOp::Constr(i, j, Seq::empty()), base as int);
        },
        ETerm::App(..) => lemma_build_app_slots_ok(sig, funcs, ops, base, e, env, pend),
        _ => {},
    }
}

proof fn lemma_build_args_slots_ok(
    sig: Sig,
    funcs: Seq<MFunc>,
    ops: Seq<MOp>,
    base: usize,
    e: ETerm,
    env: Seq<usize>,
    q: int,
    acc: Seq<usize>,
    keep_box: bool,
    pend: Set<int>,
)
    requires
        spec_slots_pre(funcs, ops, base, env, pend),
        spec_slots_ok(acc, base + ops.len()),
    ensures
        spec_build_slots(sig, funcs, ops, base, e, env, q, acc, keep_box) matches Some(
            (f2, o2, ss),
        ) ==> {
            &&& f2.len() >= funcs.len()
            &&& f2.subrange(0, funcs.len() as int) == funcs
            &&& o2.len() >= ops.len()
            &&& spec_funcs_slots_ok(f2, pend)
            &&& spec_ops_slots_ok(o2, base as int)
            &&& spec_slots_ok(ss, base + o2.len())
        },
    decreases spec_esize(e), 0nat, spec_flatten(e).1.len() - q,
{
    let args = spec_flatten(e).1;
    assert(funcs.subrange(0, funcs.len() as int) =~= funcs);
    if q < 0 || q >= args.len() {
    } else if args[q] is Box {
        let acc2 = if keep_box {
            acc.push(usize::MAX)
        } else {
            acc
        };
        assert(spec_slots_ok(acc2, base + ops.len()));
        lemma_build_args_slots_ok(sig, funcs, ops, base, e, env, q + 1, acc2, keep_box, pend);
    } else {
        lemma_flatten_sizes(e);
        lemma_build_slots_ok(sig, funcs, ops, base, args[q], env, pend);
        match spec_build(sig, funcs, ops, base, args[q], env) {
            None => {},
            Some((f2, o2, s)) => {
                lemma_slots_mono(env, base + ops.len(), base + o2.len());
                lemma_slots_mono(acc, base + ops.len(), base + o2.len());
                assert(spec_slots_ok(acc.push(s), base + o2.len()));
                assert(forall|f: int| #[trigger] pend.contains(f) ==> 0 <= f < f2.len());
                lemma_build_args_slots_ok(
                    sig,
                    f2,
                    o2,
                    base,
                    e,
                    env,
                    q + 1,
                    acc.push(s),
                    keep_box,
                    pend,
                );
                match spec_build_slots(sig, f2, o2, base, e, env, q + 1, acc.push(s), keep_box) {
                    None => {},
                    Some((f3, o3, _)) => {
                        assert(f3.subrange(0, funcs.len() as int) =~= f3.subrange(
                            0,
                            f2.len() as int,
                        ).subrange(0, funcs.len() as int));
                    },
                }
            },
        }
    }
}

proof fn lemma_build_app_slots_ok(
    sig: Sig,
    funcs: Seq<MFunc>,
    ops: Seq<MOp>,
    base: usize,
    e: ETerm,
    env: Seq<usize>,
    pend: Set<int>,
)
    requires
        spec_slots_pre(funcs, ops, base, env, pend),
    ensures
        spec_build_keeps_slots(
            funcs,
            ops,
            base,
            pend,
            spec_build_app(sig, funcs, ops, base, e, env),
        ),
    decreases spec_esize(e), 2nat, 0nat,
{
    let head = spec_flatten(e).0;
    match head {
        ETerm::Lam(_) => {
            lemma_build_args_slots_ok(sig, funcs, ops, base, e, env, 0, Seq::empty(), true, pend);
            match spec_build_slots(sig, funcs, ops, base, e, env, 0, Seq::empty(), true) {
                None => {},
                Some((f1, o1, slots)) => if spec_lambda_count(head) == slots.len() {
                    lemma_flatten_sizes(e);
                    lemma_strip_size(head);
                    lemma_slots_mono(env, base + ops.len(), base + o1.len());
                    assert(spec_slots_ok(env + slots, base + o1.len()));
                    lemma_build_slots_ok(sig, f1, o1, base, spec_strip(head), env + slots, pend);
                    match spec_build(sig, f1, o1, base, spec_strip(head), env + slots) {
                        None => {},
                        Some((f2, o2, _)) => {
                            assert(f2.subrange(0, funcs.len() as int) =~= f2.subrange(
                                0,
                                f1.len() as int,
                            ).subrange(0, funcs.len() as int));
                        },
                    }
                },
            }
        },
        ETerm::Constr(i, j) => {
            lemma_build_args_slots_ok(sig, funcs, ops, base, e, env, 0, Seq::empty(), false, pend);
            match spec_build_slots(sig, funcs, ops, base, e, env, 0, Seq::empty(), false) {
                None => {},
                Some((f1, o1, fs)) => {
                    lemma_ops_push_slots(o1, MOp::Constr(i, j, fs), base as int);
                },
            }
        },
        ETerm::Rec(i) => lemma_build_rec_slots_ok(sig, funcs, ops, base, i, e, env, pend),
        _ => {},
    }
}

#[verifier::rlimit(40)]
proof fn lemma_build_rec_slots_ok(
    sig: Sig,
    funcs: Seq<MFunc>,
    ops: Seq<MOp>,
    base: usize,
    i: usize,
    e: ETerm,
    env: Seq<usize>,
    pend: Set<int>,
)
    requires
        spec_slots_pre(funcs, ops, base, env, pend),
    ensures
        spec_build_keeps_slots(
            funcs,
            ops,
            base,
            pend,
            spec_build_rec(sig, funcs, ops, base, i, e, env),
        ),
    decreases spec_esize(e), 1nat, 0nat,
{
    let args = spec_flatten(e).1;
    if i < sig@.len() {
        let ind = sig@[i as int];
        let p = ind.params@.len();
        let k = ind.constructors@.len();
        let n = ind.indices@.len();
        if !(p > usize::MAX / 4 || k > usize::MAX / 4 || n > usize::MAX / 4) && args.len() > p
            + 1 + k + n {
            lemma_flatten_sizes(e);
            let major = args[(p + 1 + k + n) as int];
            lemma_build_slots_ok(sig, funcs, ops, base, major, env, pend);
            match spec_build(sig, funcs, ops, base, major, env) {
                None => {},
                Some((f1, o1, major_slot)) => if !(o1.len() > usize::MAX / 4 || base
                    > usize::MAX / 4 || f1.len() >= usize::MAX) {
                    let cap = (base + o1.len()) as usize;
                    let idx = f1.len() as usize;
                    let f2 = f1.push(MFunc { nparams: 0, body: MExpr::Ret(0) });
                    let pend2 = pend.insert(idx as int);
                    assert(spec_funcs_slots_ok(f2, pend2)) by {
                        assert forall|m: int|
                            0 <= m < f2.len() && !pend2.contains(m) implies spec_expr_slots_ok(
                            #[trigger] f2[m].body,
                            f2[m].nparams as int,
                        ) by {
                            assert(f2[m] == f1[m]);
                        }
                    }
                    lemma_slots_mono(env, base + ops.len(), (cap + 1) as int);
                    lemma_build_branches_slots_ok(
                        sig,
                        f2,
                        i,
                        e,
                        env,
                        cap,
                        idx,
                        0,
                        Seq::empty(),
                        pend2,
                    );
                    match spec_build_branches(sig, f2, i, e, env, cap, idx, 0, Seq::empty()) {
                        None => {},
                        Some((f3, branches)) => {
                            let func = MFunc {
                                nparams: (cap + 1) as usize,
                                body: MExpr::Case(i, cap, branches),
                            };
                            let f4 = f3.update(idx as int, func);
                            assert forall|m: int|
                                0 <= m < f4.len() && !pend.contains(m) implies spec_expr_slots_ok(
                                #[trigger] f4[m].body,
                                f4[m].nparams as int,
                            ) by {
                                if m != idx {
                                    assert(f4[m] == f3[m]);
                                    assert(!pend2.contains(m));
                                }
                            }
                            let call_args = spec_range(cap as nat).push(major_slot);
                            assert(spec_slots_ok(call_args, base + o1.len()));
                            lemma_ops_push_slots(o1, MOp::Call(idx, call_args), base as int);
                            assert(f4.subrange(0, funcs.len() as int) =~= funcs) by {
                                assert forall|m: int| 0 <= m < funcs.len() implies f4.subrange(
                                    0,
                                    funcs.len() as int,
                                )[m] == funcs[m] by {
                                    assert(f4[m] == f3[m]);
                                    assert(f3[m] == f3.subrange(0, f2.len() as int)[m]);
                                    assert(f2[m] == f1[m]);
                                    assert(f1[m] == f1.subrange(0, funcs.len() as int)[m]);
                                }
                            }
                        },
                    }
                },
            }
        }
    }
}

#[verifier::rlimit(40)]
proof fn lemma_build_branches_slots_ok(
    sig: Sig,
    funcs: Seq<MFunc>,
    i: usize,
    e: ETerm,
    env: Seq<usize>,
    cap: usize,
    idx: usize,
    j: int,
    acc: Seq<MBranch>,
    pend: Set<int>,
)
    requires
        spec_funcs_slots_ok(funcs, pend),
        forall|f: int| #[trigger] pend.contains(f) ==> 0 <= f < funcs.len(),
        spec_slots_ok(env, (cap + 1) as int),
        cap <= usize::MAX / 2,
        spec_branches_slots_ok(acc, (cap + 1) as int),
    ensures
        spec_build_branches(sig, funcs, i, e, env, cap, idx, j, acc) matches Some((f2, bs)) ==> {
            &&& f2.len() >= funcs.len()
            &&& f2.subrange(0, funcs.len() as int) == funcs
            &&& spec_funcs_slots_ok(f2, pend)
            &&& spec_branches_slots_ok(bs, (cap + 1) as int)
        },
    decreases spec_esize(e), 0nat, sig@[i as int].constructors@.len() - j,
{
    let args = spec_flatten(e).1;
    let ind = sig@[i as int];
    let p = ind.params@.len();
    assert(funcs.subrange(0, funcs.len() as int) =~= funcs);
    if j < 0 || j >= ind.constructors@.len() {
    } else if p + 1 + j >= args.len() {
    } else {
        let method = args[p + 1 + j];
        let cargs = ind.constructors@[j].args@;
        let nbind = cargs.len();
        if nbind <= usize::MAX / 4 {
            let field_base = (cap + 1) as usize;
            let bbase = (field_base + nbind) as usize;
            let calls = spec_rec_calls(cargs, i, nbind as int, idx, cap);
            let menv = env + Seq::new(nbind, |f: int| (field_base + f) as usize) + Seq::new(
                calls.len(),
                |r: int| (field_base + nbind + r) as usize,
            );
            match spec_peel(method, nbind + calls.len()) {
                None => {},
                Some(m) => {
                    lemma_flatten_sizes(e);
                    lemma_peel_size(method, nbind + calls.len());
                    lemma_rec_calls_slots(cargs, i, nbind as int, idx, cap, bbase as int);
                    assert(spec_slots_ok(menv, bbase + calls.len())) by {
                        assert forall|q: int| 0 <= q < menv.len() implies spec_slot_ok(
                            #[trigger] menv[q],
                            bbase + calls.len(),
                        ) by {
                            if q < env.len() {
                                assert(menv[q] == env[q]);
                            } else if q < env.len() + nbind {
                                assert(menv[q] == (field_base + (q - env.len())) as usize);
                            } else {
                                assert(menv[q] == (field_base + nbind + (q - env.len() - nbind))
                                    as usize);
                            }
                        }
                    }
                    lemma_build_slots_ok(sig, funcs, calls, bbase, m, menv, pend);
                    match spec_build(sig, funcs, calls, bbase, m, menv) {
                        None => {},
                        Some((f2, bops, result)) => {
                            let b = MBranch { nbind: nbind as usize, body: spec_seal(bops, result) };
                            lemma_seal_slots(bops, result, bbase as int);
                            assert(acc.push(b).drop_last() =~= acc);
                            assert(forall|f: int| #[trigger] pend.contains(f) ==> 0 <= f < f2.len());
                            lemma_build_branches_slots_ok(
                                sig,
                                f2,
                                i,
                                e,
                                env,
                                cap,
                                idx,
                                j + 1,
                                acc.push(b),
                                pend,
                            );
                            match spec_build_branches(sig, f2, i, e, env, cap, idx, j + 1, acc.push(b)) {
                                None => {},
                                Some((f3, _)) => {
                                    assert(f3.subrange(0, funcs.len() as int) =~= f3.subrange(
                                        0,
                                        f2.len() as int,
                                    ).subrange(0, funcs.len() as int));
                                },
                            }
                        },
                    }
                },
            }
        }
    }
}

/// Law: compiled code reads only slots defined before the read (its
/// parameters, earlier `let`s and the fields a case branch binds), except
/// the slot `usize::MAX` that stands for an erased argument.
pub proof fn lemma_compiled_slots_defined(sig: Sig, e: ETerm)
    requires
        spec_compile(sig, e) is Some,
    ensures
        spec_funcs_slots_ok(spec_compile(sig, e).unwrap().0, Set::empty()),
{
    let nparams = spec_lambda_count(e);
    let empty_f = Seq::<MFunc>::empty();
    let empty_o = Seq::<MOp>::empty();
    let pend = Set::<int>::empty();
    assert(spec_slots_ok(spec_range(nparams), nparams as int));
    lemma_build_slots_ok(
        sig,
        empty_f,
        empty_o,
        nparams as usize,
        spec_strip(e),
        spec_range(nparams),
        pend,
    );
    let (funcs, ops, slot) = spec_build(
        sig,
        empty_f,
        empty_o,
        nparams as usize,
        spec_strip(e),
        spec_range(nparams),
    )->0;
    lemma_seal_slots(ops, slot, nparams as int);
    let entry = MFunc { nparams: nparams as usize, body: spec_seal(ops, slot) };
    let fs = funcs.push(entry);
    assert forall|m: int| 0 <= m < fs.len() && !pend.contains(m) implies spec_expr_slots_ok(
        #[trigger] fs[m].body,
        fs[m].nparams as int,
    ) by {
        if m < funcs.len() {
            assert(fs[m] == funcs[m]);
        }
    }
}

struct Lowerer {
    funcs: Vec<Func>,
    sig: Rc<Sig>,
}

impl Lowerer {
    /// Emits code for `e` into `ops` (whose first slot is `base`) and
    /// returns the slot holding its value; `env` maps de Bruijn indices to
    /// slots. `None` on a term outside the first-order fragment.
    fn build(&mut self, ops: &mut Vec<Op>, base: usize, e: &ETerm, env: &Vec<usize>) -> (r: Option<
        usize,
    >)
        ensures
            final(self).funcs@.len() >= old(self).funcs@.len(),
            final(self).sig == old(self).sig,
            match r {
                Some(slot) => spec_build(
                    *old(self).sig,
                    mfuncs(old(self).funcs@),
                    mops(old(ops)@),
                    base,
                    *e,
                    env@,
                ) == Some((mfuncs(final(self).funcs@), mops(final(ops)@), slot)),
                None => spec_build(
                    *old(self).sig,
                    mfuncs(old(self).funcs@),
                    mops(old(ops)@),
                    base,
                    *e,
                    env@,
                ) is None,
            },
        decreases spec_esize(*e), 2nat,
    {
        match e {
            ETerm::Var(i) => {
                if *i < env.len() {
                    Some(env[env.len() - 1 - *i])
                } else {
                    None
                }
            },
            ETerm::Constr(i, j) => {
                if ops.len() > usize::MAX - base {
                    return None;
                }
                let slot = base + ops.len();
                let op = Op::Constr(*i, *j, Vec::new());
                ops.push(op);
                proof {
                    assert(mops(ops@) =~= mops(old(ops)@).push(mop(op)));
                }
                Some(slot)
            },
            ETerm::App(..) => self.build_app(ops, base, e, env),
            _ => None,
        }
    }

    /// Emits code for the arguments `args` of an application `app` in turn
    /// and returns their slots; an erased argument gets the slot
    /// `usize::MAX` where `keep_box` holds and is skipped otherwise.
    #[verifier::loop_isolation(false)]
    fn build_slots(
        &mut self,
        ops: &mut Vec<Op>,
        base: usize,
        args: &Vec<&ETerm>,
        env: &Vec<usize>,
        keep_box: bool,
        Ghost(app): Ghost<ETerm>,
    ) -> (r: Option<Vec<usize>>)
        requires
            deref_seq(args@) == spec_flatten(app).1,
            forall|k: int| 0 <= k < args@.len() ==> spec_esize(*#[trigger] args@[k]) < spec_esize(app),
        ensures
            final(self).funcs@.len() >= old(self).funcs@.len(),
            final(self).sig == old(self).sig,
            match r {
                Some(slots) => spec_build_slots(
                    *old(self).sig,
                    mfuncs(old(self).funcs@),
                    mops(old(ops)@),
                    base,
                    app,
                    env@,
                    0,
                    Seq::empty(),
                    keep_box,
                ) == Some((mfuncs(final(self).funcs@), mops(final(ops)@), slots@)),
                None => spec_build_slots(
                    *old(self).sig,
                    mfuncs(old(self).funcs@),
                    mops(old(ops)@),
                    base,
                    app,
                    env@,
                    0,
                    Seq::empty(),
                    keep_box,
                ) is None,
            },
        decreases spec_esize(app), 0nat,
    {
        let ghost goal = spec_build_slots(
            deref_sig(&self.sig),
            mfuncs(self.funcs@),
            mops(ops@),
            base,
            app,
            env@,
            0,
            Seq::empty(),
            keep_box,
        );
        let mut slots: Vec<usize> = Vec::new();
        let mut q: usize = 0;
        while q < args.len()
            invariant
                q <= args@.len(),
                deref_seq(args@) == spec_flatten(app).1,
                forall|k: int|
                    0 <= k < args@.len() ==> spec_esize(*#[trigger] args@[k]) < spec_esize(app),
                self.funcs@.len() >= old(self).funcs@.len(),
                self.sig == old(self).sig,
                spec_build_slots(
                    *self.sig,
                    mfuncs(self.funcs@),
                    mops(ops@),
                    base,
                    app,
                    env@,
                    q as int,
                    slots@,
                    keep_box,
                ) == goal,
            decreases args@.len() - q,
        {
            let a = args[q];
            proof {
                assert(deref_seq(args@)[q as int] == *a);
            }
            match a {
                ETerm::Box => {
                    if keep_box {
                        slots.push(usize::MAX);
                    }
                },
                _ => {
                    match self.build(ops, base, a, env) {
                        Some(s) => slots.push(s),
                        None => return None,
                    }
                },
            }
            q = q + 1;
        }
        Some(slots)
    }

    #[verifier::loop_isolation(false)]
    fn build_app(&mut self, ops: &mut Vec<Op>, base: usize, e: &ETerm, env: &Vec<usize>) -> (r:
        Option<usize>)
        requires
            *e is App,
        ensures
            final(self).funcs@.len() >= old(self).funcs@.len(),
            final(self).sig == old(self).sig,
            match r {
                Some(slot) => spec_build_app(
                    *old(self).sig,
                    mfuncs(old(self).funcs@),
                    mops(old(ops)@),
                    base,
                    *e,
                    env@,
                ) == Some((mfuncs(final(self).funcs@), mops(final(ops)@), slot)),
                None => spec_build_app(
                    *old(self).sig,
                    mfuncs(old(self).funcs@),
                    mops(old(ops)@),
                    base,
                    *e,
                    env@,
                ) is None,
            },
        decreases spec_esize(*e), 1nat,
    {
        let mut args: Vec<&ETerm> = Vec::new();
        let head = flatten_into(e, &mut args);
        proof {
            lemma_flatten_sizes(*e);
            assert(deref_seq(args@) =~= spec_flatten(*e).1);
            assert forall|k: int| 0 <= k < args@.len() implies spec_esize(*#[trigger] args@[k])
                < spec_esize(*e) by {
                assert(deref_seq(args@)[k] == *args@[k]);
            }
        }
        match head {
            ETerm::Lam(_) => {
                let arg_slots = self.build_slots(ops, base, &args, env, true, Ghost(*e))?;
                let mut menv = env.clone();
                let mut cur: &ETerm = head;
                let mut k: usize = 0;
                loop
                    invariant
                        spec_esize(*cur) <= spec_esize(*head),
                        spec_esize(*head) < spec_esize(*e),
                        k <= arg_slots@.len(),
                        menv@ == env@ + arg_slots@.subrange(0, k as int),
                        spec_lambda_count(*head) == k + spec_lambda_count(*cur),
                        spec_strip(*head) == spec_strip(*cur),
                    decreases spec_esize(*cur),
                {
                    match cur {
                        ETerm::Lam(b) => {
                            if k < arg_slots.len() {
                                menv.push(arg_slots[k]);
                                k = k + 1;
                                cur = &**b;
                                assert(menv@ =~= env@ + arg_slots@.subrange(0, k as int));
                            } else {
                                return None;
                            }
                        },
                        _ => break,
                    }
                }
                if k == arg_slots.len() {
                    assert(arg_slots@.subrange(0, k as int) =~= arg_slots@);
                    self.build(ops, base, cur, &menv)
                } else {
                    None
                }
            },
            ETerm::Constr(i, j) => {
                let field_slots = self.build_slots(ops, base, &args, env, false, Ghost(*e))?;
                if ops.len() > usize::MAX - base {
                    return None;
                }
                let slot = base + ops.len();
                let ghost before = ops@;
                let op = Op::Constr(*i, *j, field_slots);
                ops.push(op);
                proof {
                    assert(mops(ops@) =~= mops(before).push(mop(op)));
                }
                Some(slot)
            },
            ETerm::Rec(i) => self.build_rec(ops, base, *i, &args, env, Ghost(*e)),
            _ => None,
        }
    }

    #[verifier::loop_isolation(false)]
    #[verifier::rlimit(40)]
    fn build_rec(
        &mut self,
        ops: &mut Vec<Op>,
        base: usize,
        i: usize,
        args: &Vec<&ETerm>,
        env: &Vec<usize>,
        Ghost(app): Ghost<ETerm>,
    ) -> (r: Option<usize>)
        requires
            deref_seq(args@) == spec_flatten(app).1,
            forall|k: int| 0 <= k < args@.len() ==> spec_esize(*#[trigger] args@[k]) < spec_esize(app),
        ensures
            final(self).funcs@.len() >= old(self).funcs@.len(),
            final(self).sig == old(self).sig,
            match r {
                Some(slot) => spec_build_rec(
                    *old(self).sig,
                    mfuncs(old(self).funcs@),
                    mops(old(ops)@),
                    base,
                    i,
                    app,
                    env@,
                ) == Some((mfuncs(final(self).funcs@), mops(final(ops)@), slot)),
                None => spec_build_rec(
                    *old(self).sig,
                    mfuncs(old(self).funcs@),
                    mops(old(ops)@),
                    base,
                    i,
                    app,
                    env@,
                ) is None,
            },
        decreases spec_esize(app), 0nat,
    {
        let sig = self.sig.clone();
        if i >= sig.len() {
            return None;
        }
        let ind = &sig[i];
        let p = ind.params.len();
        let k = ind.constructors.len();
        let n = ind.indices.len();
        if p > usize::MAX / 4 || k > usize::MAX / 4 || n > usize::MAX / 4 {
            return None;
        }
        if args.len() <= p + 1 + k + n {
            return None;
        }
        let major = args[p + 1 + k + n];
        proof {
            assert(deref_seq(args@)[(p + 1 + k + n) as int] == *major);
        }
        let major_slot = self.build(ops, base, major, env)?;
        if ops.len() > usize::MAX / 4 || base > usize::MAX / 4 || self.funcs.len() == usize::MAX {
            return None;
        }
        let cap = base + ops.len();
        let idx = self.funcs.len();
        let ghost f1 = self.funcs@;
        self.funcs.push(Func { nparams: 0, body: Expr::Ret(0) });
        proof {
            assert(mfuncs(self.funcs@) =~= mfuncs(f1).push(MFunc { nparams: 0, body: MExpr::Ret(0) }));
        }
        let ghost goal = spec_build_branches(
            deref_sig(&sig),
            mfuncs(self.funcs@),
            i,
            app,
            env@,
            cap,
            idx,
            0,
            Seq::empty(),
        );
        let mut branches: Vec<Branch> = Vec::new();
        let mut j: usize = 0;
        while j < k
            invariant
                j <= k,
                k == sig@[i as int].constructors@.len(),
                args@.len() > p + 1 + k + n,
                idx < self.funcs@.len(),
                self.funcs@.len() >= old(self).funcs@.len(),
                self.sig == old(self).sig,
                spec_build_branches(
                    *sig,
                    mfuncs(self.funcs@),
                    i,
                    app,
                    env@,
                    cap,
                    idx,
                    j as int,
                    mbranches(branches@),
                ) == goal,
            decreases k - j,
        {
            let method = args[p + 1 + j];
            proof {
                assert(deref_seq(args@)[(p + 1 + j) as int] == *method);
            }
            let cargs = &sig[i].constructors[j].args;
            let nbind = cargs.len();
            if nbind > usize::MAX / 4 {
                return None;
            }
            let field_base = cap + 1;
            let mut branch_ops: Vec<Op> = Vec::new();
            let mut menv = env.clone();
            let mut f: usize = 0;
            while f < nbind
                invariant
                    f <= nbind,
                    menv@ =~= env@ + Seq::new(f as nat, |x: int| (field_base + x) as usize),
                decreases nbind - f,
            {
                menv.push(field_base + f);
                f = f + 1;
            }
            let mut f: usize = 0;
            while f < nbind
                invariant
                    f <= nbind,
                    nbind == cargs@.len(),
                    branch_ops@.len() <= f,
                    mops(branch_ops@) == spec_rec_calls(cargs@, i, f as int, idx, cap),
                    menv@ =~= env@ + Seq::new(nbind as nat, |x: int| (field_base + x) as usize)
                        + Seq::new(
                        branch_ops@.len(),
                        |r: int| (field_base + nbind + r) as usize,
                    ),
                decreases nbind - f,
            {
                let recursive = match ind_head(&cargs[f]) {
                    Some(h) => h == i,
                    None => false,
                };
                if recursive {
                    let mut ca = range_slots(cap);
                    proof {
                        assert(ca@ =~= spec_range(cap as nat));
                    }
                    ca.push(field_base + f);
                    menv.push(field_base + nbind + branch_ops.len());
                    let ghost before = branch_ops@;
                    let op = Op::Call(idx, ca);
                    branch_ops.push(op);
                    proof {
                        assert(mops(branch_ops@) =~= mops(before).push(mop(op)));
                    }
                }
                f = f + 1;
            }
            let ghost calls = spec_rec_calls(cargs@, i, nbind as int, idx, cap);
            let mut m: &ETerm = method;
            let peel = nbind + branch_ops.len();
            let mut t: usize = 0;
            while t < peel
                invariant
                    t <= peel,
                    spec_esize(*m) <= spec_esize(*method),
                    spec_peel(*method, peel as nat) == spec_peel(*m, (peel - t) as nat),
                decreases peel - t,
            {
                match m {
                    ETerm::Lam(b) => m = &**b,
                    _ => return None,
                }
                t = t + 1;
            }
            let branch_base = field_base + nbind;
            let result = self.build(&mut branch_ops, branch_base, m, &menv)?;
            let body = seal(branch_ops, result);
            let ghost bs = branches@;
            let branch = Branch { nbind, body };
            proof {
                lemma_mbranches_push(bs, branch);
            }
            branches.push(branch);
            j = j + 1;
        }
        let ghost fs = self.funcs@;
        let func = Func { nparams: cap + 1, body: Expr::Case(i, cap, branches) };
        self.funcs.set(idx, func);
        proof {
            assert(mfuncs(self.funcs@) =~= mfuncs(fs).update(idx as int, mfunc(func)));
        }
        if ops.len() > usize::MAX - base {
            return None;
        }
        let result = base + ops.len();
        let mut call_args = range_slots(cap);
        proof {
            assert(call_args@ =~= spec_range(cap as nat));
        }
        call_args.push(major_slot);
        let ghost before = ops@;
        let op = Op::Call(idx, call_args);
        ops.push(op);
        proof {
            assert(mops(ops@) =~= mops(before).push(mop(op)));
        }
        Some(result)
    }
}

/// Compiles a first-order erased program to machine code; returns the
/// program and the index of its entry function. `None` on a term outside
/// the first-order fragment (or on slot numbers beyond machine range).
#[verifier::loop_isolation(false)]
pub fn compile(sig: Rc<Sig>, e: &ETerm) -> (r: Option<(Program, usize)>)
    ensures
        match r {
            Some((prog, entry)) => spec_compile(*sig, *e) == Some((mfuncs(prog.funcs@), entry))
                && prog.sig == sig,
            None => spec_compile(*sig, *e) is None,
        },
        r matches Some((prog, entry)) ==> {
            &&& entry + 1 == prog.funcs@.len()
            &&& prog.funcs@[entry as int].nparams == spec_lambda_count(*e)
        },
{
    let mut lo = Lowerer { funcs: Vec::new(), sig: sig.clone() };
    let mut env: Vec<usize> = Vec::new();
    let mut body: &ETerm = e;
    let mut nparams: usize = 0;
    loop
        invariant
            env@ =~= spec_range(nparams as nat),
            spec_lambda_count(*e) == nparams + spec_lambda_count(*body),
            spec_strip(*e) == spec_strip(*body),
            lo.sig == sig,
            lo.funcs@.len() == 0,
        decreases spec_lambda_count(*body),
    {
        match body {
            ETerm::Lam(b) => {
                if nparams == usize::MAX {
                    return None;
                }
                env.push(nparams);
                nparams = nparams + 1;
                body = &**b;
            },
            _ => break,
        }
    }
    let mut ops: Vec<Op> = Vec::new();
    proof {
        assert(mfuncs(lo.funcs@) =~= Seq::<MFunc>::empty());
        assert(mops(ops@) =~= Seq::<MOp>::empty());
    }
    let slot = match lo.build(&mut ops, nparams, body, &env) {
        Some(s) => s,
        None => return None,
    };
    let entry = lo.funcs.len();
    let ghost fs = lo.funcs@;
    let ghost mo = mops(ops@);
    let func = Func { nparams, body: seal(ops, slot) };
    lo.funcs.push(func);
    proof {
        assert(mfuncs(lo.funcs@) =~= mfuncs(fs).push(mfunc(func)));
    }
    Some((Program { funcs: lo.funcs, sig }, entry))
}


/// The erased value of the unary numeral `n` of inductive `k`.
pub open spec fn spec_nat_value(k: usize, n: nat) -> EMValue
    decreases n,
{
    if n == 0 {
        EMValue::Constr(k, 0, Seq::empty())
    } else {
        EMValue::Constr(k, 1, seq![spec_nat_value(k, (n - 1) as nat)])
    }
}

/// The operations that build the unary numeral `n` of inductive `k` into
/// slots `0..=n`: slot `m` holds `m`.
pub open spec fn spec_nat_ops(k: usize, n: nat) -> Seq<MOp> {
    Seq::new(
        n + 1,
        |m: int|
            if m == 0 {
                MOp::Constr(k, 0, Seq::empty())
            } else {
                MOp::Constr(k, 1, seq![(m - 1) as usize])
            },
    )
}

proof fn lemma_eval_nat(sig: Sig, k: usize, v: i64, fuel: nat)
    requires
        spec_shape(sig, k as int) == Some(Shape::NatLike),
        0 <= v,
        fuel >= v + 1,
    ensures
        spec_eeval(fuel, sig@, Seq::empty(), spec_decode_to_eterm(sig, k, v)) == Some(
            spec_nat_value(k, v as nat),
        ),
    decreases v,
{
    let e = spec_decode_to_eterm(sig, k, v);
    if v == 0 {
        assert(e == ETerm::Constr(k, 0));
        assert(spec_nat_value(k, 0) == EMValue::Constr(k, 0, Seq::empty()));
    } else {
        let f = (fuel - 1) as nat;
        let sub = spec_decode_to_eterm(sig, k, (v - 1) as i64);
        assert(e == ETerm::App(Box::new(ETerm::Constr(k, 1)), Box::new(sub)));
        lemma_eval_nat(sig, k, (v - 1) as i64, f);
        let nv = spec_nat_value(k, (v - 1) as nat);
        assert(spec_eeval(f, sig@, Seq::empty(), ETerm::Constr(k, 1)) == Some(
            EMValue::Constr(k, 1, Seq::empty()),
        ));
        assert(spec_eeval(f, sig@, Seq::empty(), sub) == Some(nv));
        assert(Seq::<EMValue>::empty().push(nv) =~= seq![nv]);
        assert(spec_eapply(f, sig@, EMValue::Constr(k, 1, Seq::empty()), nv) == Some(
            EMValue::Constr(k, 1, seq![nv]),
        ));
        assert(spec_nat_value(k, v as nat) == EMValue::Constr(k, 1, seq![nv]));
    }
}

proof fn lemma_quote_nat(sig: Sig, k: usize, v: i64, fuel: nat)
    requires
        spec_shape(sig, k as int) == Some(Shape::NatLike),
        0 <= v,
        fuel >= 2 * v + 1,
    ensures
        spec_equote(fuel, 0, spec_nat_value(k, v as nat)) == Some(spec_decode_to_eterm(sig, k, v)),
    decreases v,
{
    if v == 0 {
        assert(spec_nat_value(k, 0) == EMValue::Constr(k, 0, Seq::empty()));
        assert(spec_equote_spine((fuel - 1) as nat, 0, ETerm::Constr(k, 0), Seq::empty()) == Some(
            ETerm::Constr(k, 0),
        ));
        assert(spec_decode_to_eterm(sig, k, v) == ETerm::Constr(k, 0));
    } else {
        let nv = spec_nat_value(k, (v - 1) as nat);
        let sp = seq![nv];
        assert(spec_nat_value(k, v as nat) == EMValue::Constr(k, 1, sp));
        lemma_quote_nat(sig, k, (v - 1) as i64, (fuel - 2) as nat);
        let q = spec_decode_to_eterm(sig, k, (v - 1) as i64);
        assert(spec_equote((fuel - 2) as nat, 0, sp[0]) == Some(q));
        let out = ETerm::App(Box::new(ETerm::Constr(k, 1)), Box::new(q));
        assert(spec_equote_args((fuel - 2) as nat, 0, out, sp, 1) == Some(out));
        assert(spec_equote_args((fuel - 2) as nat, 0, ETerm::Constr(k, 1), sp, 0) == Some(out));
        assert(spec_equote_spine((fuel - 1) as nat, 0, ETerm::Constr(k, 1), sp) == Some(out));
        assert(spec_decode_to_eterm(sig, k, v) == out);
    }
}

proof fn lemma_build_nat(sig: Sig, k: usize, v: i64, funcs: Seq<MFunc>, env: Seq<usize>)
    requires
        spec_shape(sig, k as int) == Some(Shape::NatLike),
        0 <= v,
        v < usize::MAX,
    ensures
        spec_build(sig, funcs, Seq::empty(), 0, spec_decode_to_eterm(sig, k, v), env) == Some(
            (funcs, spec_nat_ops(k, v as nat), v as usize),
        ),
    decreases v,
{
    let e = spec_decode_to_eterm(sig, k, v);
    if v == 0 {
        assert(Seq::<MOp>::empty().push(MOp::Constr(k, 0, Seq::empty())) =~= spec_nat_ops(k, 0));
    } else {
        let sub = spec_decode_to_eterm(sig, k, (v - 1) as i64);
        lemma_build_nat(sig, k, (v - 1) as i64, funcs, env);
        assert(spec_flatten(ETerm::Constr(k, 1)) == (ETerm::Constr(k, 1), Seq::<ETerm>::empty()));
        assert(spec_flatten(e).1 =~= seq![sub]);
        assert(spec_flatten(e).0 == ETerm::Constr(k, 1));
        let prev = spec_nat_ops(k, (v - 1) as nat);
        assert(!(sub is Box));
        assert(spec_build_slots(sig, funcs, prev, 0, e, env, 1, seq![(v - 1) as usize], false)
            == Some((funcs, prev, seq![(v - 1) as usize])));
        assert(Seq::<usize>::empty().push((v - 1) as usize) =~= seq![(v - 1) as usize]);
        assert(spec_build_slots(sig, funcs, Seq::empty(), 0, e, env, 0, Seq::empty(), false)
            == Some((funcs, prev, seq![(v - 1) as usize])));
        assert(prev.push(MOp::Constr(k, 1, seq![(v - 1) as usize])) =~= spec_nat_ops(
            k,
            v as nat,
        ));
    }
}

proof fn lemma_run_nat_ops(
    funcs: Seq<Func>,
    sig: Sig,
    k: usize,
    n: nat,
    m: nat,
    x: Expr,
    fuel: nat,
)
    requires
        spec_shape(sig, k as int) == Some(Shape::NatLike),
        m <= n + 1,
        n <= i64::MAX,
        n < usize::MAX,
        mexpr(x) == spec_seal(spec_nat_ops(k, n).subrange(m as int, (n + 1) as int), n as usize),
        fuel >= n + 2 - m,
    ensures
        spec_run_from(
            funcs,
            sig,
            (Seq::new(m, |y: int| y as i64), x),
            Seq::empty(),
            fuel,
        ) == Ok::<Result<i64, RunError>, ()>(Ok(n as i64)),
    decreases n + 1 - m,
{
    let ops = spec_nat_ops(k, n);
    let sub = ops.subrange(m as int, (n + 1) as int);
    let locals = Seq::new(m, |y: int| y as i64);
    if m == n + 1 {
        assert(sub.len() == 0);
        match x {
            Expr::Ret(s) => {},
            Expr::Let(..) => {},
            Expr::Case(..) => {},
        }
    } else {
        assert(sub[0] == ops[m as int]);
        match x {
            Expr::Let(o, r) => {
                assert(mop(o) == ops[m as int]);
                assert(sub.drop_first() =~= ops.subrange((m + 1) as int, (n + 1) as int));
                assert(mexpr(*r) == spec_seal(ops.subrange((m + 1) as int, (n + 1) as int), n as usize));
                match o {
                    Op::Constr(i, j, fs) => {
                        let vals = fs@.map_values(|s: usize| locals[s as int]);
                        if m == 0 {
                            assert(fs@ =~= Seq::<usize>::empty());
                            assert(spec_encode(sig, i as int, j, vals) == Some(0i64));
                        } else {
                            assert(fs@ =~= seq![(m - 1) as usize]);
                            assert(vals =~= seq![(m - 1) as i64]);
                            assert(spec_encode(sig, i as int, j, vals) == Some(m as i64));
                        }
                        assert(slots_in(fs@, locals.len()));
                        assert(locals.push(m as i64) =~= Seq::new(m + 1, |y: int| y as i64));
                        lemma_run_nat_ops(funcs, sig, k, n, m + 1, *r, (fuel - 1) as nat);
                    },
                    Op::Call(..) => {},
                }
            },
            Expr::Ret(..) => {},
            Expr::Case(..) => {},
        }
    }
}

/// Law: a closed value of a representable inductive `k` (the term that
/// the machine word `v` decodes to) compiles, and it normalises to itself.
pub proof fn lemma_value_compiles_and_normalises(sig: Sig, k: usize, v: i64)
    requires
        spec_shape(sig, k as int) is Some,
        0 <= v,
        v < usize::MAX,
    ensures
        spec_compile(sig, spec_decode_to_eterm(sig, k, v)) is Some,
        spec_eeval(FUEL as nat, sig@, Seq::empty(), spec_decode_to_eterm(sig, k, v)) matches Some(
            ev,
        ) && spec_equote(FUEL as nat, 0, ev) == Some(spec_decode_to_eterm(sig, k, v)),
{
    let e = spec_decode_to_eterm(sig, k, v);
    if spec_shape(sig, k as int) == Some(Shape::NatLike) {
        lemma_build_nat(sig, k, v, Seq::empty(), spec_range(0));
        lemma_eval_nat(sig, k, v, FUEL as nat);
        lemma_quote_nat(sig, k, v, FUEL as nat);
        let ev = spec_nat_value(k, v as nat);
        assert(spec_eeval(FUEL as nat, sig@, Seq::empty(), e) == Some(ev));
        assert(spec_equote(FUEL as nat, 0, ev) == Some(e));
        assert(spec_lambda_count(e) == 0);
        assert(spec_strip(e) == e);
    } else {
        assert(e == ETerm::Constr(k, v as usize));
        let ev = EMValue::Constr(k, v as usize, Seq::empty());
        assert(spec_eeval(FUEL as nat, sig@, Seq::empty(), e) == Some(ev));
        assert(spec_equote_spine((FUEL - 1) as nat, 0, e, Seq::empty()) == Some(e));
        assert(spec_equote(FUEL as nat, 0, ev) == Some(e));
        assert(spec_build(sig, Seq::empty(), Seq::empty(), 0, e, spec_range(0)) is Some);
    }
}

/// Law: running the program compiled from the value term of word `v` (of
/// a representable inductive) gives back `v`; with the previous law, the
/// run decodes to the term's normal form.
pub proof fn lemma_value_runs_back(sig: Sig, k: usize, v: i64, prog: Program, entry: usize)
    requires
        spec_shape(sig, k as int) is Some,
        0 <= v,
        v < usize::MAX,
        *prog.sig == sig,
        spec_compile(sig, spec_decode_to_eterm(sig, k, v)) == Some((mfuncs(prog.funcs@), entry)),
    ensures
        spec_run(prog, entry, Seq::empty(), (v + 2) as nat) == Ok::<Result<i64, RunError>, ()>(
            Ok(v),
        ),
        spec_decode_to_eterm(sig, k, v) == spec_decode_to_eterm(*prog.sig, k, v),
{
    let e = spec_decode_to_eterm(sig, k, v);
    assert(spec_lambda_count(e) == 0);
    assert(spec_strip(e) == e);
    if spec_shape(sig, k as int) == Some(Shape::NatLike) {
        lemma_build_nat(sig, k, v, Seq::empty(), spec_range(0));
        let ops = spec_nat_ops(k, v as nat);
        let main = MFunc { nparams: 0, body: spec_seal(ops, v as usize) };
        assert(Seq::<MFunc>::empty().push(main) =~= seq![main]);
        assert(spec_compile(sig, e) == Some((seq![main], 0usize)));
        assert(mfuncs(prog.funcs@) == seq![main]);
        assert(mfuncs(prog.funcs@).len() == prog.funcs@.len());
        assert(seq![main].len() == 1);
        assert(mfuncs(prog.funcs@)[0] == mfunc(prog.funcs@[0]));
        assert(mexpr(prog.funcs@[0].body) == spec_seal(ops, v as usize));
        assert(entry == 0);
        assert(ops.subrange(0, (v + 1) as int) =~= ops);
        assert(Seq::<i64>::empty() =~= Seq::new(0, |y: int| y as i64));
        lemma_run_nat_ops(prog.funcs@, sig, k, v as nat, 0, prog.funcs@[0].body, (v + 2) as nat);
    } else {
        assert(e == ETerm::Constr(k, v as usize));
        let ops = seq![MOp::Constr(k, v as usize, Seq::empty())];
        assert(Seq::<MOp>::empty().push(MOp::Constr(k, v as usize, Seq::empty())) =~= ops);
        assert(spec_build(sig, Seq::empty(), Seq::empty(), 0, e, spec_range(0)) == Some(
            (Seq::<MFunc>::empty(), ops, 0usize),
        ));
        assert(ops.drop_first() =~= Seq::<MOp>::empty());
        assert(spec_seal(Seq::<MOp>::empty(), 0) == MExpr::Ret(0));
        assert(spec_seal(ops, 0) == MExpr::Let(ops[0], Box::new(MExpr::Ret(0))));
        let main = MFunc { nparams: 0, body: spec_seal(ops, 0) };
        assert(Seq::<MFunc>::empty().push(main) =~= seq![main]);
        assert(spec_compile(sig, e) == Some((seq![main], 0usize)));
        assert(mfuncs(prog.funcs@) == seq![main]);
        assert(mfuncs(prog.funcs@).len() == prog.funcs@.len());
        assert(seq![main].len() == 1);
        assert(mfuncs(prog.funcs@)[0] == mfunc(prog.funcs@[0]));
        assert(entry == 0);
        let x = prog.funcs@[0].body;
        assert(mexpr(x) == spec_seal(ops, 0));
        assert(ops.drop_first() =~= Seq::<MOp>::empty());
        match x {
            Expr::Let(o, r) => {
                match o {
                    Op::Constr(i, j, fs) => {
                        assert(fs@ =~= Seq::<usize>::empty());
                        let vals = fs@.map_values(|s: usize| Seq::<i64>::empty()[s as int]);
                        assert(vals =~= Seq::<i64>::empty());
                        assert(mexpr(*r) == MExpr::Ret(0));
                        assert(spec_encode(sig, i as int, j, vals) == Some(v));
                        let l1 = seq![v];
                        assert(Seq::<i64>::empty().push(v) =~= l1);
                        match *r {
                            Expr::Ret(s) => {
                                assert(spec_run_from(prog.funcs@, sig, (l1, *r), Seq::empty(), (v + 1) as nat)
                                    == Ok::<Result<i64, RunError>, ()>(Ok(v)));
                                assert(slots_in(fs@, 0));
                                assert(spec_step(prog.funcs@, sig, (Seq::<i64>::empty(), x), Seq::empty())
                                    == Ok::<Option<(FrameView, Seq<FrameView>)>, ()>(Some(((l1, *r), Seq::empty()))));
                                assert(spec_run_from(prog.funcs@, sig, (Seq::<i64>::empty(), x), Seq::empty(), (v + 2) as nat)
                                    == Ok::<Result<i64, RunError>, ()>(Ok(v)));
                            },
                            _ => {},
                        }
                    },
                    _ => {},
                }
            },
            _ => {},
        }
    }
}

} // verus!
