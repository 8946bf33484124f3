use crate::compile::{shape, spec_shape, Branch, Expr, Func, Op, Program, Shape};
use crate::signature::deref_sig;
use crate::emulator::{run, spec_reg, spec_run_at, HaltError};
use crate::target::{assemble, spec_assemble, spec_encodable, spec_regs_valid, Instr, A0, RA, SP, T0, T1, ZERO};
use std::collections::HashMap;
use vstd::prelude::*;

verus! {

broadcast use vstd::std_specs::hash::group_hash_axioms;

/// An item of code before branch targets are known: an instruction, the
/// position of a label, or a jump to a label.
#[derive(Clone, Copy, PartialEq, Eq, Debug, Structural)]
pub enum AItem {
    Raw(Instr),
    Mark(usize),
    Beq(u32, u32, usize),
    Bne(u32, u32, usize),
    Jal(u32, usize),
}

// ---------------------------------------------------------------------
// Label resolution
// ---------------------------------------------------------------------

/// The number of items that become an instruction.
pub open spec fn spec_ncode(items: Seq<AItem>) -> nat
    decreases items.len(),
{
    if items.len() == 0 {
        0
    } else {
        spec_ncode(items.drop_last()) + if items.last() is Mark {
            0nat
        } else {
            1nat
        }
    }
}

/// The byte address of each label: four bytes per instruction before its
/// last mark.
pub open spec fn spec_label_addrs(items: Seq<AItem>) -> Map<usize, i64>
    decreases items.len(),
{
    if items.len() == 0 {
        Map::empty()
    } else {
        let m = spec_label_addrs(items.drop_last());
        match items.last() {
            AItem::Mark(l) => m.insert(l, (4 * spec_ncode(items.drop_last())) as i64),
            _ => m,
        }
    }
}

/// The instruction an item becomes at address `here`; `None` for a jump to
/// a label that is never marked.
pub open spec fn spec_resolve_item(it: AItem, here: int, labels: Map<usize, i64>) -> Option<
    Seq<Instr>,
> {
    match it {
        AItem::Mark(_) => Some(Seq::empty()),
        AItem::Raw(i) => Some(seq![i]),
        AItem::Beq(a, b, l) => if labels.contains_key(l) {
            Some(seq![Instr::Beq(a, b, (labels[l] - here) as i32)])
        } else {
            None
        },
        AItem::Bne(a, b, l) => if labels.contains_key(l) {
            Some(seq![Instr::Bne(a, b, (labels[l] - here) as i32)])
        } else {
            None
        },
        AItem::Jal(rd, l) => if labels.contains_key(l) {
            Some(seq![Instr::Jal(rd, (labels[l] - here) as i32)])
        } else {
            None
        },
    }
}

pub open spec fn spec_resolve_with(items: Seq<AItem>, labels: Map<usize, i64>) -> Option<
    Seq<Instr>,
>
    decreases items.len(),
{
    if items.len() == 0 {
        Some(Seq::empty())
    } else {
        match spec_resolve_with(items.drop_last(), labels) {
            Some(pre) => match spec_resolve_item(
                items.last(),
                (4 * spec_ncode(items.drop_last())) as int,
                labels,
            ) {
                Some(s) => Some(pre + s),
                None => None,
            },
            None => None,
        }
    }
}

/// The instructions of a list of items, each jump carrying the byte offset
/// from itself to its label; `None` where a label is never marked or the
/// addresses do not fit in an `i64`.
pub open spec fn spec_resolve(items: Seq<AItem>) -> Option<Seq<Instr>> {
    if 4 * spec_ncode(items) > i64::MAX {
        None
    } else {
        spec_resolve_with(items, spec_label_addrs(items))
    }
}

proof fn lemma_ncode_prefix(items: Seq<AItem>, k: int)
    requires
        0 <= k <= items.len(),
    ensures
        spec_ncode(items.subrange(0, k)) <= spec_ncode(items),
    decreases items.len() - k,
{
    if k < items.len() {
        lemma_ncode_prefix(items, k + 1);
        assert(items.subrange(0, k + 1).drop_last() =~= items.subrange(0, k));
    } else {
        assert(items.subrange(0, k) =~= items);
    }
}

fn resolve(items: Vec<AItem>) -> (r: Vec<Instr>)
    requires
        spec_resolve(items@) is Some,
    ensures
        Some(r@) == spec_resolve(items@),
{
    let mut label_addr: HashMap<usize, i64> = HashMap::new();
    let mut addr: i64 = 0;
    let mut k: usize = 0;
    while k < items.len()
        invariant
            k <= items@.len(),
            4 * spec_ncode(items@) <= i64::MAX,
            addr == 4 * spec_ncode(items@.subrange(0, k as int)),
            label_addr@ == spec_label_addrs(items@.subrange(0, k as int)),
        decreases items@.len() - k,
    {
        let ghost pre = items@.subrange(0, k as int);
        assert(items@.subrange(0, k + 1).drop_last() =~= pre);
        proof {
            lemma_ncode_prefix(items@, k + 1);
        }
        match items[k] {
            AItem::Mark(l) => {
                label_addr.insert(l, addr);
            },
            _ => {
                addr = addr + 4;
            },
        }
        k = k + 1;
    }
    assert(items@.subrange(0, items@.len() as int) =~= items@);
    let ghost labels = spec_label_addrs(items@);
    proof {
        lemma_label_addrs_bounded(items@);
    }
    let mut out: Vec<Instr> = Vec::new();
    let mut here: i64 = 0;
    let mut k: usize = 0;
    while k < items.len()
        invariant
            k <= items@.len(),
            4 * spec_ncode(items@) <= i64::MAX,
            label_addr@ == labels,
            labels == spec_label_addrs(items@),
            forall|l: usize| #[trigger]
                labels.contains_key(l) ==> 0 <= labels[l] <= 4 * spec_ncode(items@),
            here == 4 * spec_ncode(items@.subrange(0, k as int)),
            spec_resolve_with(items@, labels) is Some,
            spec_resolve_with(items@.subrange(0, k as int), labels) == Some(out@),
        decreases items@.len() - k,
    {
        let ghost pre = items@.subrange(0, k as int);
        assert(items@.subrange(0, k + 1).drop_last() =~= pre);
        proof {
            lemma_ncode_prefix(items@, k + 1);
            lemma_resolve_with_prefix(items@, labels, k + 1);
        }
        match items[k] {
            AItem::Mark(_) => {
                assert(out@ + Seq::<Instr>::empty() =~= out@);
            },
            AItem::Raw(i) => {
                out.push(i);
                here = here + 4;
            },
            AItem::Beq(rs1, rs2, l) => {
                let a = lookup(&label_addr, l);
                out.push(Instr::Beq(rs1, rs2, (a - here) as i32));
                here = here + 4;
            },
            AItem::Bne(rs1, rs2, l) => {
                let a = lookup(&label_addr, l);
                out.push(Instr::Bne(rs1, rs2, (a - here) as i32));
                here = here + 4;
            },
            AItem::Jal(rd, l) => {
                let a = lookup(&label_addr, l);
                out.push(Instr::Jal(rd, (a - here) as i32));
                here = here + 4;
            },
        }
        k = k + 1;
    }
    assert(items@.subrange(0, items@.len() as int) =~= items@);
    out
}

fn lookup(m: &HashMap<usize, i64>, l: usize) -> (a: i64)
    requires
        m@.contains_key(l),
    ensures
        a == m@[l],
{
    match m.get(&l) {
        Some(a) => *a,
        None => 0,
    }
}

proof fn lemma_label_addrs_bounded(items: Seq<AItem>)
    requires
        4 * spec_ncode(items) <= i64::MAX,
    ensures
        forall|l: usize| #[trigger]
            spec_label_addrs(items).contains_key(l) ==> 0 <= spec_label_addrs(items)[l] <= 4
                * spec_ncode(items),
    decreases items.len(),
{
    if items.len() > 0 {
        let pre = items.drop_last();
        lemma_label_addrs_bounded(pre);
        assert forall|l: usize| #[trigger]
            spec_label_addrs(items).contains_key(l) implies 0 <= spec_label_addrs(items)[l] <= 4
                * spec_ncode(items) by {
            if spec_label_addrs(pre).contains_key(l) {
                assert(0 <= spec_label_addrs(pre)[l] <= 4 * spec_ncode(pre));
            }
        }
    }
}

proof fn lemma_resolve_with_prefix(items: Seq<AItem>, labels: Map<usize, i64>, k: int)
    requires
        0 <= k <= items.len(),
        spec_resolve_with(items, labels) is Some,
    ensures
        spec_resolve_with(items.subrange(0, k), labels) is Some,
    decreases items.len() - k,
{
    if k < items.len() {
        lemma_resolve_with_prefix(items, labels, k + 1);
        assert(items.subrange(0, k + 1).drop_last() =~= items.subrange(0, k));
    } else {
        assert(items.subrange(0, k) =~= items);
    }
}

// ---------------------------------------------------------------------
// Frames
// ---------------------------------------------------------------------

/// The number of local slots an expression reaches when entered with `cur`
/// slots live.
pub open spec fn spec_max_len(e: Expr, cur: int) -> int
    decreases e, 0int,
{
    match e {
        Expr::Ret(_) => cur,
        Expr::Let(_, rest) => spec_max_len(*rest, cur + 1),
        Expr::Case(_, _, bs) => spec_max_branches(bs@, 0, cur),
    }
}

/// The largest slot count over branches `j..` (at least `cur`).
pub open spec fn spec_max_branches(bs: Seq<Branch>, j: int, cur: int) -> int
    decreases bs, bs.len() - j,
{
    if j < 0 || j >= bs.len() {
        cur
    } else {
        let here = spec_max_len(bs[j].body, cur + bs[j].nbind);
        let rest = spec_max_branches(bs, j + 1, cur);
        if here > rest {
            here
        } else {
            rest
        }
    }
}

/// The slots of a function's frame: its parameters and every local its
/// body creates.
pub open spec fn spec_flocals(f: Func) -> int {
    spec_max_len(f.body, f.nparams as int)
}

pub open spec fn spec_round16(x: int) -> Option<i64> {
    if x + 15 > i64::MAX {
        None
    } else {
        Some(((x + 15) as i64) & !15i64)
    }
}

/// A function's frame in bytes: its slots and the saved return address,
/// rounded up to 16.
pub open spec fn spec_frame_bytes(f: Func) -> Option<i64> {
    let fl = spec_flocals(f);
    if fl > usize::MAX {
        None
    } else {
        let y = (fl as usize as i64) + 1;
        if y > i64::MAX || 8 * y > i64::MAX || 8 * y < i64::MIN {
            None
        } else {
            spec_round16(8 * y)
        }
    }
}

/// The frame size of every function.
pub open spec fn spec_frames(prog: Program) -> Option<Seq<i64>> {
    if forall|f: int| 0 <= f < prog.funcs@.len() ==> (#[trigger] spec_frame_bytes(prog.funcs@[f]))
        is Some {
        Some(Seq::new(prog.funcs@.len(), |f: int| spec_frame_bytes(prog.funcs@[f])->0))
    } else {
        None
    }
}

proof fn lemma_max_len_ge(e: Expr, cur: int)
    ensures
        spec_max_len(e, cur) >= cur,
    decreases e, 0int,
{
    match e {
        Expr::Ret(_) => {},
        Expr::Let(_, rest) => {
            lemma_max_len_ge(*rest, cur + 1);
        },
        Expr::Case(_, _, bs) => {
            lemma_max_branches_ge(bs@, 0, cur);
        },
    }
}

proof fn lemma_max_branches_ge(bs: Seq<Branch>, j: int, cur: int)
    ensures
        spec_max_branches(bs, j, cur) >= cur,
        0 <= j < bs.len() ==> spec_max_branches(bs, j, cur) >= spec_max_len(
            bs[j].body,
            cur + bs[j].nbind,
        ),
        0 <= j < bs.len() ==> spec_max_branches(bs, j, cur) >= spec_max_branches(bs, j + 1, cur),
    decreases bs, bs.len() - j,
{
    if 0 <= j < bs.len() {
        lemma_max_branches_ge(bs, j + 1, cur);
    }
}

#[verifier::loop_isolation(false)]
fn max_len(e: &Expr, cur: usize) -> (r: usize)
    requires
        spec_max_len(*e, cur as int) <= usize::MAX,
    ensures
        r == spec_max_len(*e, cur as int),
    decreases e,
{
    proof {
        lemma_max_len_ge(*e, cur as int);
    }
    match e {
        Expr::Ret(_) => cur,
        Expr::Let(_, rest) => {
            proof {
                lemma_max_len_ge(**rest, cur + 1);
            }
            max_len(rest, cur + 1)
        },
        Expr::Case(_, _, branches) => {
            let ghost bs = branches@;
            let mut m: usize = cur;
            let mut j: usize = branches.len();
            while j > 0
                invariant
                    j <= bs.len(),
                    bs == branches@,
                    spec_max_branches(bs, 0, cur as int) <= usize::MAX,
                    m == spec_max_branches(bs, j as int, cur as int),
                decreases j,
            {
                j = j - 1;
                proof {
                    lemma_max_branches_prefix(bs, 0, j as int, cur as int);
                    lemma_max_branches_ge(bs, j as int, cur as int);
                    lemma_max_len_ge(bs[j as int].body, cur + bs[j as int].nbind);
                }
                let b = &branches[j];
                proof {
                    assert(decreases_to!(branches => branches@));
                    assert(decreases_to!(branches@ => branches@[j as int]));
                }
                let here = max_len(&b.body, cur + b.nbind);
                if here > m {
                    m = here;
                }
            }
            m
        },
    }
}

proof fn lemma_max_branches_prefix(bs: Seq<Branch>, i: int, j: int, cur: int)
    requires
        0 <= i <= j,
    ensures
        spec_max_branches(bs, i, cur) >= spec_max_branches(bs, j, cur),
    decreases j - i,
{
    if i < j {
        lemma_max_branches_prefix(bs, i + 1, j, cur);
        lemma_max_branches_ge(bs, i, cur);
    }
}

fn flocals(f: &Func) -> (r: usize)
    requires
        spec_flocals(*f) <= usize::MAX,
    ensures
        r == spec_flocals(*f),
{
    max_len(&f.body, f.nparams)
}

fn round16(x: i64) -> (r: i64)
    requires
        x + 15 <= i64::MAX,
    ensures
        Some(r) == spec_round16(x as int),
{
    (x + 15) & !15i64
}

fn frame_bytes(f: &Func) -> (r: i64)
    requires
        spec_frame_bytes(*f) is Some,
    ensures
        Some(r) == spec_frame_bytes(*f),
{
    round16(8 * (flocals(f) as i64 + 1))
}

// ---------------------------------------------------------------------
// Code emission
// ---------------------------------------------------------------------

pub open spec fn spec_fits_imm12(x: int) -> bool {
    -2048 <= x < 2048
}

/// The byte offset of local slot `s` from the stack pointer; `None` past
/// the reach of a 12-bit immediate.
pub open spec fn spec_slot_off(s: usize) -> Option<i32> {
    let o = 8 * (s as i64);
    if o > i64::MAX || o < i64::MIN || o >= 2048 {
        None
    } else {
        Some(o as i32)
    }
}

/// The byte offset, from the stack pointer, of parameter `r` of a callee
/// whose frame is `fr` bytes; `None` where it does not fit a 12-bit
/// immediate.
pub open spec fn spec_param_off(fr: i64, r: int) -> Option<i32> {
    let p = 8 * (r as i64);
    if fr == i64::MIN || p > i64::MAX || p < i64::MIN {
        None
    } else {
        let off = -fr + p;
        if off > i64::MAX || !spec_fits_imm12(off) {
            None
        } else {
            Some(off as i32)
        }
    }
}

/// Loading constant `v` into `rd`: one `addi` where it fits 12 bits, else
/// `lui` of the rounded upper part and `addi` of the rest (of the low 32
/// bits of `v`).
pub open spec fn spec_li(rd: u32, v: i64) -> Option<Seq<AItem>> {
    if spec_fits_imm12(v as int) {
        Some(seq![AItem::Raw(Instr::Addi(rd, ZERO, v as i32))])
    } else {
        let w = v as i32;
        let hi = w.wrapping_add(0x800i32) >> 12i32;
        let lo = w - hi * 4096;
        if lo > i32::MAX || lo < i32::MIN {
            None
        } else {
            Some(seq![AItem::Raw(Instr::Lui(rd, hi)), AItem::Raw(Instr::Addi(rd, rd, lo as i32))])
        }
    }
}

/// Building constructor `j` of inductive `i` from slots `fs` into slot
/// `cur`.
pub open spec fn spec_emit_constr(prog: Program, i: usize, j: usize, fs: Seq<usize>, cur: usize) -> Option<
    Seq<AItem>,
> {
    match spec_shape(*prog.sig, i as int) {
        Some(Shape::EnumLike) => match (spec_li(T0, j as i64), spec_slot_off(cur)) {
            (Some(l), Some(c)) => Some(l.push(AItem::Raw(Instr::Sd(T0, SP, c)))),
            _ => None,
        },
        Some(Shape::NatLike) => if j == 0 {
            match spec_slot_off(cur) {
                Some(c) => Some(seq![AItem::Raw(Instr::Sd(ZERO, SP, c))]),
                None => None,
            }
        } else if fs.len() == 0 {
            None
        } else {
            match (spec_slot_off(fs[0]), spec_slot_off(cur)) {
                (Some(a), Some(c)) => Some(
                    seq![
                        AItem::Raw(Instr::Ld(T0, SP, a)),
                        AItem::Raw(Instr::Addi(T0, T0, 1i32)),
                        AItem::Raw(Instr::Sd(T0, SP, c)),
                    ],
                ),
                _ => None,
            }
        },
        None => None,
    }
}

/// Copying the argument slots `args[r..]` into the callee's parameter
/// slots below the stack pointer.
pub open spec fn spec_arg_moves(fr: i64, args: Seq<usize>, r: int) -> Option<Seq<AItem>>
    decreases args.len() - r,
{
    if r < 0 || r >= args.len() {
        Some(Seq::empty())
    } else {
        match (spec_slot_off(args[r]), spec_param_off(fr, r), spec_arg_moves(fr, args, r + 1)) {
            (Some(a), Some(o), Some(rest)) => Some(
                seq![AItem::Raw(Instr::Ld(T0, SP, a)), AItem::Raw(Instr::Sd(T0, SP, o))] + rest,
            ),
            _ => None,
        }
    }
}

/// Calling function `f` on slots `args`, its result going to slot `cur`:
/// copy the arguments, push the callee's frame, jump and link, pop, store
/// `a0`.
pub open spec fn spec_emit_call(
    prog: Program,
    frames: Seq<i64>,
    f: usize,
    args: Seq<usize>,
    cur: usize,
) -> Option<Seq<AItem>> {
    if f >= frames.len() || f >= prog.funcs@.len() || args.len() != prog.funcs@[f as int].nparams {
        None
    } else {
        let fr = frames[f as int];
        match (spec_arg_moves(fr, args, 0), spec_slot_off(cur)) {
            (Some(mv), Some(c)) => if spec_fits_imm12(fr as int) {
                Some(
                    mv + seq![
                        AItem::Raw(Instr::Addi(SP, SP, (-fr) as i32)),
                        AItem::Jal(RA, f),
                        AItem::Raw(Instr::Addi(SP, SP, fr as i32)),
                        AItem::Raw(Instr::Sd(A0, SP, c)),
                    ],
                )
            } else {
                None
            },
            _ => None,
        }
    }
}

/// The tests of an enumeration's case: for each constructor `j` in
/// `j..k`, load `j` and branch to label `base + j` when it matches.
pub open spec fn spec_case_tests(base: int, j: int, k: int) -> Option<Seq<AItem>>
    decreases k - j,
{
    if j < 0 || j >= k {
        Some(Seq::empty())
    } else {
        match (spec_li(T0, j as i64), spec_case_tests(base, j + 1, k)) {
            (Some(l), Some(rest)) => Some(l + seq![AItem::Beq(T1, T0, (base + j) as usize)] + rest),
            _ => None,
        }
    }
}

/// The code of an expression entered with `cur` live slots in a frame
/// whose return address sits in slot `floc`, with fresh labels numbered
/// from `next`; gives the items and the next unused label, `None` where
/// emission fails (an offset out of reach, an arity or a branch count
/// that does not match, a counter that would overflow).
pub open spec fn spec_lower_expr(
    prog: Program,
    frames: Seq<i64>,
    e: Expr,
    cur: usize,
    floc: usize,
    next: usize,
) -> Option<(Seq<AItem>, usize)>
    decreases e, 0int,
{
    match e {
        Expr::Ret(slot) => match (spec_slot_off(slot), spec_slot_off(floc)) {
            (Some(a), Some(b)) => Some(
                (
                    seq![
                        AItem::Raw(Instr::Ld(A0, SP, a)),
                        AItem::Raw(Instr::Ld(RA, SP, b)),
                        AItem::Raw(Instr::Jalr(ZERO, RA, 0i32)),
                    ],
                    next,
                ),
            ),
            _ => None,
        },
        Expr::Let(op, rest) => {
            let head = match op {
                Op::Constr(i, j, fs) => spec_emit_constr(prog, i, j, fs@, cur),
                Op::Call(f, args) => spec_emit_call(prog, frames, f, args@, cur),
            };
            if cur >= usize::MAX {
                None
            } else {
                match head {
                    Some(h) => match spec_lower_expr(
                        prog,
                        frames,
                        *rest,
                        (cur + 1) as usize,
                        floc,
                        next,
                    ) {
                        Some((t, n)) => Some((h + t, n)),
                        None => None,
                    },
                    None => None,
                }
            }
        },
        Expr::Case(i, scrut, bs) => spec_lower_case(prog, frames, i, scrut, bs@, cur, floc, next),
    }
}

/// The code of a case on slot `scrut` of inductive `i`. A natural number
/// tests for zero; its successor branch gets the predecessor in slot
/// `cur`. An enumeration compares the tag with each constructor but the
/// last, which falls through.
pub open spec fn spec_lower_case(
    prog: Program,
    frames: Seq<i64>,
    i: usize,
    scrut: usize,
    bs: Seq<Branch>,
    cur: usize,
    floc: usize,
    next: usize,
) -> Option<(Seq<AItem>, usize)>
    decreases bs, bs.len() + 1,
{
    match (spec_slot_off(scrut), spec_shape(*prog.sig, i as int)) {
        (Some(so), Some(Shape::NatLike)) => {
            if bs.len() < 2 || next >= usize::MAX || cur >= usize::MAX {
                None
            } else {
                match spec_lower_expr(prog, frames, bs[0].body, cur, floc, (next + 1) as usize) {
                    Some((b0, n1)) => match (
                        spec_slot_off(cur),
                        spec_lower_expr(prog, frames, bs[1].body, (cur + 1) as usize, floc, n1),
                    ) {
                        (Some(c), Some((b1, n2))) => Some(
                            (
                                seq![
                                    AItem::Raw(Instr::Ld(T1, SP, so)),
                                    AItem::Bne(T1, ZERO, next),
                                ] + b0 + seq![
                                    AItem::Mark(next),
                                    AItem::Raw(Instr::Addi(T0, T1, -1i32)),
                                    AItem::Raw(Instr::Sd(T0, SP, c)),
                                ] + b1,
                                n2,
                            ),
                        ),
                        _ => None,
                    },
                    None => None,
                }
            }
        },
        (Some(so), Some(Shape::EnumLike)) => {
            let k = bs.len();
            if k == 0 || next + (k - 1) > usize::MAX {
                None
            } else {
                let n0 = (next + (k - 1)) as usize;
                match (
                    spec_case_tests(next as int, 0, k - 1),
                    spec_lower_expr(prog, frames, bs[k - 1].body, cur, floc, n0),
                ) {
                    (Some(tests), Some((last, n1))) => match spec_lower_branches(
                        prog,
                        frames,
                        bs,
                        0,
                        k - 1,
                        cur,
                        floc,
                        n1,
                        next as int,
                    ) {
                        Some((rest, n2)) => Some(
                            (seq![AItem::Raw(Instr::Ld(T1, SP, so))] + tests + last + rest, n2),
                        ),
                        None => None,
                    },
                    _ => None,
                }
            }
        },
        _ => None,
    }
}

/// Branches `j..k` of an enumeration's case, each after the mark of its
/// label `base + j`.
pub open spec fn spec_lower_branches(
    prog: Program,
    frames: Seq<i64>,
    bs: Seq<Branch>,
    j: int,
    k: int,
    cur: usize,
    floc: usize,
    next: usize,
    base: int,
) -> Option<(Seq<AItem>, usize)>
    decreases bs, k - j,
{
    if j < 0 || j >= k || k > bs.len() {
        Some((Seq::empty(), next))
    } else {
        match spec_lower_expr(prog, frames, bs[j].body, cur, floc, next) {
            Some((b, n1)) => match spec_lower_branches(
                prog,
                frames,
                bs,
                j + 1,
                k,
                cur,
                floc,
                n1,
                base,
            ) {
                Some((rest, n2)) => Some((seq![AItem::Mark((base + j) as usize)] + b + rest, n2)),
                None => None,
            },
            None => None,
        }
    }
}

/// Loading the entry arguments `args[r..]` into the entry function's
/// parameter slots.
pub open spec fn spec_entry_args(fe: i64, args: Seq<i64>, r: int) -> Option<Seq<AItem>>
    decreases args.len() - r,
{
    if r < 0 || r >= args.len() {
        Some(Seq::empty())
    } else {
        match (spec_li(T0, args[r]), spec_param_off(fe, r), spec_entry_args(fe, args, r + 1)) {
            (Some(l), Some(o), Some(rest)) => Some(l + seq![AItem::Raw(Instr::Sd(T0, SP, o))] + rest),
            _ => None,
        }
    }
}

/// The code of functions `f..`: each starts at its label (its number),
/// saves the return address in its last slot and runs its body.
pub open spec fn spec_lower_funcs(prog: Program, frames: Seq<i64>, f: int, next: usize) -> Option<
    (Seq<AItem>, usize),
>
    decreases prog.funcs@.len() - f,
{
    if f < 0 || f >= prog.funcs@.len() {
        Some((Seq::empty(), next))
    } else {
        let func = prog.funcs@[f];
        let fl = spec_flocals(func);
        if fl > usize::MAX {
            None
        } else {
            match (
                spec_slot_off(fl as usize),
                spec_lower_expr(prog, frames, func.body, func.nparams, fl as usize, next),
            ) {
                (Some(o), Some((b, n1))) => match spec_lower_funcs(prog, frames, f + 1, n1) {
                    Some((rest, n2)) => Some(
                        (
                            seq![
                                AItem::Mark(f as usize),
                                AItem::Raw(Instr::Sd(RA, SP, o)),
                            ] + b + rest,
                            n2,
                        ),
                    ),
                    None => None,
                },
                _ => None,
            }
        }
    }
}

/// The lowered program: store the arguments below the stack pointer, push
/// the entry's frame, call it, `ecall`; then every function's code.
/// Labels `0..n` are the functions, later ones are branch targets. `None`
/// where lowering fails (see `spec_lower_expr`, and an entry out of range
/// or called with the wrong number of arguments).
pub open spec fn spec_lower(prog: Program, entry: usize, args: Seq<i64>) -> Option<Seq<Instr>> {
    match spec_frames(prog) {
        Some(frames) => {
            let n = prog.funcs@.len();
            if entry >= n || args.len() != prog.funcs@[entry as int].nparams {
                None
            } else {
                let fe = frames[entry as int];
                match (spec_entry_args(fe, args, 0), spec_lower_funcs(prog, frames, 0, n as usize)) {
                    (Some(pre), Some((body, _))) => if spec_fits_imm12(fe as int) {
                        spec_resolve(
                            pre + seq![
                                AItem::Raw(Instr::Addi(SP, SP, (-fe) as i32)),
                                AItem::Jal(RA, entry),
                                AItem::Raw(Instr::Ecall),
                            ] + body,
                        )
                    } else {
                        None
                    },
                    _ => None,
                }
            }
        },
        None => None,
    }
}

proof fn lemma_hi_range(x: i32)
    by (bit_vector)
    ensures
        -524288 <= (x >> 12i32) < 524288,
{
}

fn slot_off(s: usize) -> (r: i32)
    requires
        spec_slot_off(s) is Some,
    ensures
        Some(r) == spec_slot_off(s),
{
    let o = 8 * (s as i64);
    o as i32
}

fn param_off(fr: i64, r: usize) -> (o: i32)
    requires
        spec_param_off(fr, r as int) is Some,
    ensures
        Some(o) == spec_param_off(fr, r as int),
{
    let off = -fr + 8 * (r as i64);
    off as i32
}

struct Lower<'a> {
    prog: &'a Program,
    frames: Vec<i64>,
    items: Vec<AItem>,
    next_label: usize,
}

/// The program and frame sizes a lowering works from did not change.
spec fn same_env(a: Lower, b: Lower) -> bool {
    &&& *a.prog == *b.prog
    &&& a.frames@ == b.frames@
}

impl Lower<'_> {
    fn fresh(&mut self) -> (l: usize)
        requires
            old(self).next_label < usize::MAX,
        ensures
            l == old(self).next_label,
            final(self).next_label == l + 1,
            final(self).items@ == old(self).items@,
            same_env(*final(self), *old(self)),
    {
        let l = self.next_label;
        self.next_label = self.next_label + 1;
        l
    }

    fn raw(&mut self, i: Instr)
        ensures
            final(self).items@ == old(self).items@.push(AItem::Raw(i)),
            final(self).next_label == old(self).next_label,
            same_env(*final(self), *old(self)),
    {
        self.items.push(AItem::Raw(i));
    }

    fn li(&mut self, rd: u32, v: i64)
        requires
            spec_li(rd, v) is Some,
        ensures
            final(self).items@ == old(self).items@ + spec_li(rd, v)->0,
            final(self).next_label == old(self).next_label,
            same_env(*final(self), *old(self)),
    {
        if -2048 <= v && v < 2048 {
            self.raw(Instr::Addi(rd, ZERO, v as i32));
            assert(self.items@ =~= old(self).items@ + spec_li(rd, v)->0);
        } else {
            let w = v as i32;
            let hi = w.wrapping_add(0x800) >> 12;
            proof {
                lemma_hi_range(w.wrapping_add(0x800));
            }
            let lo = w - hi * 4096;
            self.raw(Instr::Lui(rd, hi));
            self.raw(Instr::Addi(rd, rd, lo));
            assert(self.items@ =~= old(self).items@ + spec_li(rd, v)->0);
        }
    }

    fn emit_constr(&mut self, i: usize, j: usize, fs: &Vec<usize>, cur: usize)
        requires
            spec_emit_constr(*old(self).prog, i, j, fs@, cur) is Some,
        ensures
            final(self).items@ == old(self).items@ + spec_emit_constr(
                *old(self).prog,
                i,
                j,
                fs@,
                cur,
            )->0,
            final(self).next_label == old(self).next_label,
            same_env(*final(self), *old(self)),
    {
        match shape(&self.prog.sig, i) {
            Shape::EnumLike => {
                self.li(T0, j as i64);
                self.raw(Instr::Sd(T0, SP, slot_off(cur)));
            },
            Shape::NatLike => {
                if j == 0 {
                    self.raw(Instr::Sd(ZERO, SP, slot_off(cur)));
                } else {
                    self.raw(Instr::Ld(T0, SP, slot_off(fs[0])));
                    self.raw(Instr::Addi(T0, T0, 1));
                    self.raw(Instr::Sd(T0, SP, slot_off(cur)));
                }
            },
        }
        assert(self.items@ =~= old(self).items@ + spec_emit_constr(
            *old(self).prog,
            i,
            j,
            fs@,
            cur,
        )->0);
    }

    fn emit_call(&mut self, f: usize, args: &Vec<usize>, cur: usize)
        requires
            spec_emit_call(*old(self).prog, old(self).frames@, f, args@, cur) is Some,
        ensures
            final(self).items@ == old(self).items@ + spec_emit_call(
                *old(self).prog,
                old(self).frames@,
                f,
                args@,
                cur,
            )->0,
            final(self).next_label == old(self).next_label,
            same_env(*final(self), *old(self)),
    {
        let fr = self.frames[f];
        let ghost start = self.items@;
        let ghost moves = spec_arg_moves(fr, args@, 0)->0;
        let mut r: usize = 0;
        while r < args.len()
            invariant
                r <= args@.len(),
                same_env(*self, *old(self)),
                self.next_label == old(self).next_label,
                spec_arg_moves(fr, args@, r as int) is Some,
                start + moves == self.items@ + spec_arg_moves(fr, args@, r as int)->0,
            decreases args@.len() - r,
        {
            let a = args[r];
            self.raw(Instr::Ld(T0, SP, slot_off(a)));
            let off = param_off(fr, r);
            self.raw(Instr::Sd(T0, SP, off));
            proof {
                let rest = spec_arg_moves(fr, args@, r + 1)->0;
                assert(spec_arg_moves(fr, args@, r as int)->0 =~= seq![
                    AItem::Raw(Instr::Ld(T0, SP, spec_slot_off(a)->0)),
                    AItem::Raw(Instr::Sd(T0, SP, off)),
                ] + rest);
                assert(start + moves =~= self.items@ + rest);
            }
            r = r + 1;
        }
        assert(start + moves =~= self.items@);
        self.raw(Instr::Addi(SP, SP, (-fr) as i32));
        self.items.push(AItem::Jal(RA, f));
        self.raw(Instr::Addi(SP, SP, fr as i32));
        self.raw(Instr::Sd(A0, SP, slot_off(cur)));
        assert(self.items@ =~= old(self).items@ + spec_emit_call(
            *old(self).prog,
            old(self).frames@,
            f,
            args@,
            cur,
        )->0);
    }

    fn lower_expr(&mut self, e: &Expr, cur: usize, floc: usize)
        requires
            spec_lower_expr(*old(self).prog, old(self).frames@, *e, cur, floc, old(self).next_label)
                is Some,
        ensures
            final(self).items@ == old(self).items@ + spec_lower_expr(
                *old(self).prog,
                old(self).frames@,
                *e,
                cur,
                floc,
                old(self).next_label,
            ).unwrap().0,
            final(self).next_label == spec_lower_expr(
                *old(self).prog,
                old(self).frames@,
                *e,
                cur,
                floc,
                old(self).next_label,
            ).unwrap().1,
            same_env(*final(self), *old(self)),
        decreases e,
    {
        match e {
            Expr::Ret(slot) => {
                self.raw(Instr::Ld(A0, SP, slot_off(*slot)));
                self.raw(Instr::Ld(RA, SP, slot_off(floc)));
                self.raw(Instr::Jalr(ZERO, RA, 0));
                assert(self.items@ =~= old(self).items@ + spec_lower_expr(
                    *old(self).prog,
                    old(self).frames@,
                    *e,
                    cur,
                    floc,
                    old(self).next_label,
                ).unwrap().0);
            },
            Expr::Let(Op::Constr(i, j, fs), rest) => {
                self.emit_constr(*i, *j, fs, cur);
                self.lower_expr(rest, cur + 1, floc);
                assert(self.items@ =~= old(self).items@ + spec_lower_expr(
                    *old(self).prog,
                    old(self).frames@,
                    *e,
                    cur,
                    floc,
                    old(self).next_label,
                ).unwrap().0);
            },
            Expr::Let(Op::Call(f, args), rest) => {
                self.emit_call(*f, args, cur);
                self.lower_expr(rest, cur + 1, floc);
                assert(self.items@ =~= old(self).items@ + spec_lower_expr(
                    *old(self).prog,
                    old(self).frames@,
                    *e,
                    cur,
                    floc,
                    old(self).next_label,
                ).unwrap().0);
            },
            Expr::Case(i, scrut, branches) => {
                self.emit_case(*i, *scrut, branches, cur, floc);
            },
        }
    }

    #[verifier::loop_isolation(false)]
    fn emit_case(&mut self, i: usize, scrut: usize, branches: &Vec<Branch>, cur: usize, floc: usize)
        requires
            spec_lower_case(
                *old(self).prog,
                old(self).frames@,
                i,
                scrut,
                branches@,
                cur,
                floc,
                old(self).next_label,
            ) is Some,
        ensures
            final(self).items@ == old(self).items@ + spec_lower_case(
                *old(self).prog,
                old(self).frames@,
                i,
                scrut,
                branches@,
                cur,
                floc,
                old(self).next_label,
            ).unwrap().0,
            final(self).next_label == spec_lower_case(
                *old(self).prog,
                old(self).frames@,
                i,
                scrut,
                branches@,
                cur,
                floc,
                old(self).next_label,
            ).unwrap().1,
            same_env(*final(self), *old(self)),
        decreases branches,
    {
        let ghost prog = *self.prog;
        let ghost frames = self.frames@;
        let ghost bs = branches@;
        let ghost goal = spec_lower_case(prog, frames, i, scrut, bs, cur, floc, self.next_label)->0;
        let ghost start = self.items@;
        self.raw(Instr::Ld(T1, SP, slot_off(scrut)));
        proof {
            assert(decreases_to!(branches => branches@));
        }
        match shape(&self.prog.sig, i) {
            Shape::NatLike => {
                let l1 = self.fresh();
                self.items.push(AItem::Bne(T1, ZERO, l1));
                proof {
                    assert(decreases_to!(branches@ => branches@[0]));
                }
                self.lower_expr(&branches[0].body, cur, floc);
                self.items.push(AItem::Mark(l1));
                self.raw(Instr::Addi(T0, T1, -1));
                self.raw(Instr::Sd(T0, SP, slot_off(cur)));
                proof {
                    assert(decreases_to!(branches@ => branches@[1]));
                }
                self.lower_expr(&branches[1].body, cur + 1, floc);
                assert(self.items@ =~= start + goal.0);
            },
            Shape::EnumLike => {
                let k = branches.len();
                let base = self.next_label;
                let mut labels: Vec<usize> = Vec::new();
                let mut q: usize = 0;
                while q < k - 1
                    invariant
                        q <= k - 1,
                        k == bs.len(),
                        self.next_label == base + q,
                        labels@.len() == q,
                        forall|t: int| 0 <= t < q ==> labels@[t] == base + t,
                        self.items@ == start.push(AItem::Raw(Instr::Ld(T1, SP, spec_slot_off(scrut)->0))),
                        same_env(*self, *old(self)),
                    decreases k - 1 - q,
                {
                    let l = self.fresh();
                    labels.push(l);
                    q = q + 1;
                }
                let ghost tests = spec_case_tests(base as int, 0, k - 1)->0;
                let ghost mid = self.items@;
                let mut j: usize = 0;
                while j < labels.len()
                    invariant
                        j <= labels@.len(),
                        labels@.len() == k - 1,
                        forall|t: int| 0 <= t < k - 1 ==> labels@[t] == base + t,
                        self.next_label == base + (k - 1),
                        spec_case_tests(base as int, j as int, k - 1) is Some,
                        mid + tests == self.items@ + spec_case_tests(base as int, j as int, k - 1)->0,
                        same_env(*self, *old(self)),
                    decreases labels@.len() - j,
                {
                    self.li(T0, j as i64);
                    self.items.push(AItem::Beq(T1, T0, labels[j]));
                    proof {
                        let rest = spec_case_tests(base as int, j + 1, k - 1)->0;
                        assert(spec_case_tests(base as int, j as int, k - 1)->0 =~= spec_li(
                            T0,
                            j as i64,
                        )->0 + seq![AItem::Beq(T1, T0, (base + j) as usize)] + rest);
                        assert(mid + tests =~= self.items@ + rest);
                    }
                    j = j + 1;
                }
                assert(mid + tests =~= self.items@);
                proof {
                    assert(decreases_to!(branches@ => branches@[k - 1]));
                }
                self.lower_expr(&branches[k - 1].body, cur, floc);
                let ghost n1 = self.next_label;
                let ghost tail = spec_lower_branches(
                    prog,
                    frames,
                    bs,
                    0,
                    k - 1,
                    cur,
                    floc,
                    n1,
                    base as int,
                ).unwrap().0;
                let ghost after_last = self.items@;
                let mut j: usize = 0;
                while j < labels.len()
                    invariant
                        j <= labels@.len(),
                        labels@.len() == k - 1,
                        k == bs.len(),
                        bs == branches@,
                        forall|t: int| 0 <= t < k - 1 ==> labels@[t] == base + t,
                        spec_lower_branches(
                            prog,
                            frames,
                            bs,
                            j as int,
                            k - 1,
                            cur,
                            floc,
                            self.next_label,
                            base as int,
                        ) is Some,
                        after_last + tail == self.items@ + spec_lower_branches(
                            prog,
                            frames,
                            bs,
                            j as int,
                            k - 1,
                            cur,
                            floc,
                            self.next_label,
                            base as int,
                        ).unwrap().0,
                        spec_lower_branches(
                            prog,
                            frames,
                            bs,
                            j as int,
                            k - 1,
                            cur,
                            floc,
                            self.next_label,
                            base as int,
                        ).unwrap().1 == spec_lower_branches(
                            prog,
                            frames,
                            bs,
                            0,
                            k - 1,
                            cur,
                            floc,
                            n1,
                            base as int,
                        ).unwrap().1,
                        same_env(*self, *old(self)),
                    decreases labels@.len() - j,
                {
                    let ghost n_before = self.next_label;
                    self.items.push(AItem::Mark(labels[j]));
                    proof {
                        assert(decreases_to!(branches@ => branches@[j as int]));
                    }
                    self.lower_expr(&branches[j].body, cur, floc);
                    proof {
                        let b = spec_lower_expr(
                            prog,
                            frames,
                            bs[j as int].body,
                            cur,
                            floc,
                            n_before,
                        ).unwrap().0;
                        let rest = spec_lower_branches(
                            prog,
                            frames,
                            bs,
                            j + 1,
                            k - 1,
                            cur,
                            floc,
                            self.next_label,
                            base as int,
                        ).unwrap().0;
                        assert(spec_lower_branches(
                            prog,
                            frames,
                            bs,
                            j as int,
                            k - 1,
                            cur,
                            floc,
                            n_before,
                            base as int,
                        ).unwrap().0 =~= seq![AItem::Mark((base + j) as usize)] + b + rest);
                        assert(after_last + tail =~= self.items@ + rest);
                    }
                    j = j + 1;
                }
                assert(after_last + tail =~= self.items@);
                assert(self.items@ =~= start + goal.0);
            },
        }
    }
}

/// The RV64I code of a program: a start-up sequence that calls `entry` on
/// `args` and stops with `ecall`, then every function. Exactly the code
/// `spec_lower` describes; the caller rules out the programs whose
/// lowering fails.
pub fn lower(prog: &Program, entry: usize, args: &[i64]) -> (r: Vec<Instr>)
    requires
        spec_lower(*prog, entry, args@) is Some,
    ensures
        Some(r@) == spec_lower(*prog, entry, args@),
{
    let ghost frames_spec = spec_frames(*prog)->0;
    let n = prog.funcs.len();
    let mut frames: Vec<i64> = Vec::new();
    let mut f: usize = 0;
    while f < n
        invariant
            f <= n,
            n == prog.funcs@.len(),
            spec_frames(*prog) is Some,
            frames_spec == spec_frames(*prog)->0,
            frames@ == frames_spec.subrange(0, f as int),
        decreases n - f,
    {
        assert(spec_frame_bytes(prog.funcs@[f as int]) is Some);
        frames.push(frame_bytes(&prog.funcs[f]));
        assert(frames@ =~= frames_spec.subrange(0, f + 1));
        f = f + 1;
    }
    assert(frames@ =~= frames_spec);
    let mut lo = Lower { prog, frames, items: Vec::new(), next_label: n };
    let fe = lo.frames[entry];
    let ghost pre = spec_entry_args(fe, args@, 0)->0;
    let mut r: usize = 0;
    while r < args.len()
        invariant
            r <= args@.len(),
            spec_entry_args(fe, args@, r as int) is Some,
            pre == lo.items@ + spec_entry_args(fe, args@, r as int)->0,
            lo.prog == prog,
            lo.frames@ == frames_spec,
            lo.next_label == n,
        decreases args@.len() - r,
    {
        lo.li(T0, args[r]);
        let off = param_off(fe, r);
        lo.raw(Instr::Sd(T0, SP, off));
        proof {
            let rest = spec_entry_args(fe, args@, r + 1)->0;
            assert(spec_entry_args(fe, args@, r as int)->0 =~= spec_li(T0, args@[r as int])->0
                + seq![AItem::Raw(Instr::Sd(T0, SP, off))] + rest);
            assert(pre =~= lo.items@ + rest);
        }
        r = r + 1;
    }
    assert(pre =~= lo.items@);
    lo.raw(Instr::Addi(SP, SP, (-fe) as i32));
    lo.items.push(AItem::Jal(RA, entry));
    lo.raw(Instr::Ecall);
    let ghost head = lo.items@;
    assert(head =~= pre + seq![
        AItem::Raw(Instr::Addi(SP, SP, (-fe) as i32)),
        AItem::Jal(RA, entry),
        AItem::Raw(Instr::Ecall),
    ]);
    let ghost body = spec_lower_funcs(*prog, frames_spec, 0, n).unwrap().0;
    let mut f: usize = 0;
    while f < n
        invariant
            f <= n,
            n == prog.funcs@.len(),
            lo.prog == prog,
            lo.frames@ == frames_spec,
            spec_lower_funcs(*prog, frames_spec, f as int, lo.next_label) is Some,
            head + body == lo.items@ + spec_lower_funcs(
                *prog,
                frames_spec,
                f as int,
                lo.next_label,
            ).unwrap().0,
        decreases n - f,
    {
        let ghost n_before = lo.next_label;
        lo.items.push(AItem::Mark(f));
        let floc = flocals(&prog.funcs[f]);
        lo.raw(Instr::Sd(RA, SP, slot_off(floc)));
        lo.lower_expr(&prog.funcs[f].body, prog.funcs[f].nparams, floc);
        proof {
            let func = prog.funcs@[f as int];
            let b = spec_lower_expr(
                *prog,
                frames_spec,
                func.body,
                func.nparams,
                floc,
                n_before,
            ).unwrap().0;
            let rest = spec_lower_funcs(*prog, frames_spec, f + 1, lo.next_label).unwrap().0;
            assert(spec_lower_funcs(*prog, frames_spec, f as int, n_before).unwrap().0 =~= seq![
                AItem::Mark(f),
                AItem::Raw(Instr::Sd(RA, SP, spec_slot_off(floc)->0)),
            ] + b + rest);
            assert(head + body =~= lo.items@ + rest);
        }
        f = f + 1;
    }
    assert(head + body =~= lo.items@);
    assert(lo.items@ =~= pre + seq![
        AItem::Raw(Instr::Addi(SP, SP, (-fe) as i32)),
        AItem::Jal(RA, entry),
        AItem::Raw(Instr::Ecall),
    ] + body);
    resolve(lo.items)
}

/// Lowers, assembles and runs a program on the emulator for at most
/// `fuel` instructions; the result is the value in `a0` at `ecall`.
pub fn run_native(prog: &Program, entry: usize, args: &[i64], fuel: usize) -> (r: Result<
    i64,
    HaltError,
>)
    requires
        spec_lower(*prog, entry, args@) is Some,
        forall|k: int|
            0 <= k < spec_lower(*prog, entry, args@)->0.len() ==> spec_encodable(
                #[trigger] spec_lower(*prog, entry, args@)->0[k],
            ),
        spec_run_at(spec_assemble(spec_lower(*prog, entry, args@)->0), fuel as nat, 0) is Some,
    ensures
        match spec_run_at(spec_assemble(spec_lower(*prog, entry, args@)->0), fuel as nat, 0) {
            Some(Ok(m)) => r == Ok::<i64, HaltError>(spec_reg(m, A0)),
            Some(Err(e)) => r == Err::<i64, HaltError>(e),
            None => false,
        },
{
    let code = assemble(lower(prog, entry, args).as_slice());
    match run(code.as_slice(), fuel) {
        Ok(cpu) => Ok(cpu.reg(A0)),
        Err(e) => Err(e),
    }
}

proof fn lemma_round16(z: i64)
    by (bit_vector)
    requires
        0 <= z <= 0x7fff_ffff_ffff_fff0i64,
    ensures
        ((z + 15) as i64 & !15i64) % 16 == 0,
        z <= ((z + 15) as i64 & !15i64) < z + 16,
{
}

/// Law: a frame is a whole number of 16-byte units with room for the saved
/// return address and every local slot (for functions with fewer than
/// 2^63 slots, where the slot count converts to `i64` unchanged).
pub proof fn lemma_frame_bytes_aligned(f: Func)
    requires
        spec_frame_bytes(f) is Some,
        spec_flocals(f) <= i64::MAX,
    ensures
        spec_frame_bytes(f)->0 % 16 == 0,
        spec_frame_bytes(f)->0 >= 8 * (spec_flocals(f) + 1),
{
    let fl = spec_flocals(f);
    lemma_max_len_ge(f.body, f.nparams as int);
    assert(0 <= fl <= usize::MAX);
    assert((fl as usize as i64) == fl);
    let z = (8 * (fl + 1)) as i64;
    lemma_round16(z);
}

/// An instruction the emulator can run: every register field in range, and
/// not an unknown word.
pub open spec fn spec_instr_ok(i: Instr) -> bool {
    spec_regs_valid(i) && !(i is Unknown)
}

pub open spec fn spec_item_ok(it: AItem) -> bool {
    match it {
        AItem::Raw(i) => spec_instr_ok(i),
        AItem::Mark(_) => true,
        AItem::Beq(a, b, _) => a < 32 && b < 32,
        AItem::Bne(a, b, _) => a < 32 && b < 32,
        AItem::Jal(rd, _) => rd < 32,
    }
}

pub open spec fn spec_items_ok(s: Seq<AItem>) -> bool {
    forall|k: int| 0 <= k < s.len() ==> spec_item_ok(#[trigger] s[k])
}

proof fn lemma_items_ok_concat(a: Seq<AItem>, b: Seq<AItem>)
    requires
        spec_items_ok(a),
        spec_items_ok(b),
    ensures
        spec_items_ok(a + b),
{
    assert forall|k: int| 0 <= k < (a + b).len() implies spec_item_ok(#[trigger] (a + b)[k]) by {
        if k < a.len() {
            assert((a + b)[k] == a[k]);
        } else {
            assert((a + b)[k] == b[k - a.len()]);
        }
    }
}

proof fn lemma_li_ok(rd: u32, v: i64)
    requires
        rd < 32,
        spec_li(rd, v) is Some,
    ensures
        spec_items_ok(spec_li(rd, v)->0),
{
}

proof fn lemma_arg_moves_ok(fr: i64, args: Seq<usize>, r: int)
    requires
        spec_arg_moves(fr, args, r) is Some,
    ensures
        spec_items_ok(spec_arg_moves(fr, args, r)->0),
    decreases args.len() - r,
{
    if 0 <= r < args.len() {
        lemma_arg_moves_ok(fr, args, r + 1);
        let a = spec_slot_off(args[r])->0;
        let o = spec_param_off(fr, r)->0;
        lemma_items_ok_concat(
            seq![AItem::Raw(Instr::Ld(T0, SP, a)), AItem::Raw(Instr::Sd(T0, SP, o))],
            spec_arg_moves(fr, args, r + 1)->0,
        );
    }
}

proof fn lemma_entry_args_ok(fe: i64, args: Seq<i64>, r: int)
    requires
        spec_entry_args(fe, args, r) is Some,
    ensures
        spec_items_ok(spec_entry_args(fe, args, r)->0),
    decreases args.len() - r,
{
    if 0 <= r < args.len() {
        lemma_entry_args_ok(fe, args, r + 1);
        let l = spec_li(T0, args[r])->0;
        let o = spec_param_off(fe, r)->0;
        lemma_li_ok(T0, args[r]);
        lemma_items_ok_concat(l, seq![AItem::Raw(Instr::Sd(T0, SP, o))]);
        lemma_items_ok_concat(
            l + seq![AItem::Raw(Instr::Sd(T0, SP, o))],
            spec_entry_args(fe, args, r + 1)->0,
        );
    }
}

proof fn lemma_case_tests_ok(base: int, j: int, k: int)
    requires
        spec_case_tests(base, j, k) is Some,
    ensures
        spec_items_ok(spec_case_tests(base, j, k)->0),
    decreases k - j,
{
    if 0 <= j < k {
        lemma_case_tests_ok(base, j + 1, k);
        let l = spec_li(T0, j as i64)->0;
        lemma_li_ok(T0, j as i64);
        lemma_items_ok_concat(l, seq![AItem::Beq(T1, T0, (base + j) as usize)]);
        lemma_items_ok_concat(
            l + seq![AItem::Beq(T1, T0, (base + j) as usize)],
            spec_case_tests(base, j + 1, k)->0,
        );
    }
}

proof fn lemma_emit_constr_ok(prog: Program, i: usize, j: usize, fs: Seq<usize>, cur: usize)
    requires
        spec_emit_constr(prog, i, j, fs, cur) is Some,
    ensures
        spec_items_ok(spec_emit_constr(prog, i, j, fs, cur)->0),
{
    if spec_shape(deref_sig(&prog.sig), i as int) == Some(Shape::EnumLike) {
        lemma_li_ok(T0, j as i64);
        let l = spec_li(T0, j as i64)->0;
        let c = spec_slot_off(cur)->0;
        assert(l.push(AItem::Raw(Instr::Sd(T0, SP, c))) =~= l + seq![
            AItem::Raw(Instr::Sd(T0, SP, c)),
        ]);
        lemma_items_ok_concat(l, seq![AItem::Raw(Instr::Sd(T0, SP, c))]);
    }
}

proof fn lemma_emit_call_ok(prog: Program, frames: Seq<i64>, f: usize, args: Seq<usize>, cur: usize)
    requires
        spec_emit_call(prog, frames, f, args, cur) is Some,
    ensures
        spec_items_ok(spec_emit_call(prog, frames, f, args, cur)->0),
{
    let fr = frames[f as int];
    lemma_arg_moves_ok(fr, args, 0);
    let c = spec_slot_off(cur)->0;
    lemma_items_ok_concat(
        spec_arg_moves(fr, args, 0)->0,
        seq![
            AItem::Raw(Instr::Addi(SP, SP, (-fr) as i32)),
            AItem::Jal(RA, f),
            AItem::Raw(Instr::Addi(SP, SP, fr as i32)),
            AItem::Raw(Instr::Sd(A0, SP, c)),
        ],
    );
}

proof fn lemma_lower_expr_ok(
    prog: Program,
    frames: Seq<i64>,
    e: Expr,
    cur: usize,
    floc: usize,
    next: usize,
)
    requires
        spec_lower_expr(prog, frames, e, cur, floc, next) is Some,
    ensures
        spec_items_ok(spec_lower_expr(prog, frames, e, cur, floc, next).unwrap().0),
    decreases e, 0int,
{
    match e {
        Expr::Ret(_) => {},
        Expr::Let(op, rest) => {
            let h = match op {
                Op::Constr(i, j, fs) => {
                    lemma_emit_constr_ok(prog, i, j, fs@, cur);
                    spec_emit_constr(prog, i, j, fs@, cur)->0
                },
                Op::Call(f, args) => {
                    lemma_emit_call_ok(prog, frames, f, args@, cur);
                    spec_emit_call(prog, frames, f, args@, cur)->0
                },
            };
            lemma_lower_expr_ok(prog, frames, *rest, (cur + 1) as usize, floc, next);
            lemma_items_ok_concat(
                h,
                spec_lower_expr(prog, frames, *rest, (cur + 1) as usize, floc, next).unwrap().0,
            );
        },
        Expr::Case(i, scrut, bs) => {
            lemma_lower_case_ok(prog, frames, i, scrut, bs@, cur, floc, next);
        },
    }
}

proof fn lemma_lower_case_ok(
    prog: Program,
    frames: Seq<i64>,
    i: usize,
    scrut: usize,
    bs: Seq<Branch>,
    cur: usize,
    floc: usize,
    next: usize,
)
    requires
        spec_lower_case(prog, frames, i, scrut, bs, cur, floc, next) is Some,
    ensures
        spec_items_ok(spec_lower_case(prog, frames, i, scrut, bs, cur, floc, next).unwrap().0),
    decreases bs, bs.len() + 1,
{
    let so = spec_slot_off(scrut)->0;
    if spec_shape(deref_sig(&prog.sig), i as int) == Some(Shape::NatLike) {
        let (b0, n1) = spec_lower_expr(prog, frames, bs[0].body, cur, floc, (next + 1) as usize)->0;
        let c = spec_slot_off(cur)->0;
        let b1 = spec_lower_expr(prog, frames, bs[1].body, (cur + 1) as usize, floc, n1).unwrap().0;
        lemma_lower_expr_ok(prog, frames, bs[0].body, cur, floc, (next + 1) as usize);
        lemma_lower_expr_ok(prog, frames, bs[1].body, (cur + 1) as usize, floc, n1);
        let p1 = seq![AItem::Raw(Instr::Ld(T1, SP, so)), AItem::Bne(T1, ZERO, next)];
        let p2 = seq![
            AItem::Mark(next),
            AItem::Raw(Instr::Addi(T0, T1, -1i32)),
            AItem::Raw(Instr::Sd(T0, SP, c)),
        ];
        lemma_items_ok_concat(p1, b0);
        lemma_items_ok_concat(p1 + b0, p2);
        lemma_items_ok_concat(p1 + b0 + p2, b1);
    } else {
        let k = bs.len();
        let n0 = (next + (k - 1)) as usize;
        let tests = spec_case_tests(next as int, 0, k - 1)->0;
        let (last, n1) = spec_lower_expr(prog, frames, bs[k - 1].body, cur, floc, n0)->0;
        let rest = spec_lower_branches(prog, frames, bs, 0, k - 1, cur, floc, n1, next as int).unwrap().0;
        lemma_case_tests_ok(next as int, 0, k - 1);
        lemma_lower_expr_ok(prog, frames, bs[k - 1].body, cur, floc, n0);
        lemma_lower_branches_ok(prog, frames, bs, 0, k - 1, cur, floc, n1, next as int);
        let p = seq![AItem::Raw(Instr::Ld(T1, SP, so))];
        lemma_items_ok_concat(p, tests);
        lemma_items_ok_concat(p + tests, last);
        lemma_items_ok_concat(p + tests + last, rest);
    }
}

proof fn lemma_lower_branches_ok(
    prog: Program,
    frames: Seq<i64>,
    bs: Seq<Branch>,
    j: int,
    k: int,
    cur: usize,
    floc: usize,
    next: usize,
    base: int,
)
    requires
        spec_lower_branches(prog, frames, bs, j, k, cur, floc, next, base) is Some,
    ensures
        spec_items_ok(spec_lower_branches(prog, frames, bs, j, k, cur, floc, next, base).unwrap().0),
    decreases bs, k - j,
{
    if 0 <= j < k && k <= bs.len() {
        let (b, n1) = spec_lower_expr(prog, frames, bs[j].body, cur, floc, next)->0;
        lemma_lower_expr_ok(prog, frames, bs[j].body, cur, floc, next);
        lemma_lower_branches_ok(prog, frames, bs, j + 1, k, cur, floc, n1, base);
        let m = seq![AItem::Mark((base + j) as usize)];
        lemma_items_ok_concat(m, b);
        lemma_items_ok_concat(
            m + b,
            spec_lower_branches(prog, frames, bs, j + 1, k, cur, floc, n1, base).unwrap().0,
        );
    }
}

proof fn lemma_lower_funcs_ok(prog: Program, frames: Seq<i64>, f: int, next: usize)
    requires
        spec_lower_funcs(prog, frames, f, next) is Some,
    ensures
        spec_items_ok(spec_lower_funcs(prog, frames, f, next).unwrap().0),
    decreases prog.funcs@.len() - f,
{
    if 0 <= f < prog.funcs@.len() {
        let func = prog.funcs@[f];
        let fl = spec_flocals(func);
        let o = spec_slot_off(fl as usize)->0;
        let (b, n1) = spec_lower_expr(prog, frames, func.body, func.nparams, fl as usize, next)->0;
        lemma_lower_expr_ok(prog, frames, func.body, func.nparams, fl as usize, next);
        lemma_lower_funcs_ok(prog, frames, f + 1, n1);
        let h = seq![AItem::Mark(f as usize), AItem::Raw(Instr::Sd(RA, SP, o))];
        lemma_items_ok_concat(h, b);
        lemma_items_ok_concat(h + b, spec_lower_funcs(prog, frames, f + 1, n1).unwrap().0);
    }
}

proof fn lemma_resolve_with_ok(items: Seq<AItem>, labels: Map<usize, i64>)
    requires
        spec_items_ok(items),
        spec_resolve_with(items, labels) is Some,
    ensures
        forall|k: int|
            0 <= k < spec_resolve_with(items, labels)->0.len() ==> spec_instr_ok(
                #[trigger] spec_resolve_with(items, labels)->0[k],
            ),
    decreases items.len(),
{
    if items.len() > 0 {
        let pre = items.drop_last();
        assert(spec_items_ok(pre)) by {
            assert forall|k: int| 0 <= k < pre.len() implies spec_item_ok(#[trigger] pre[k]) by {
                assert(pre[k] == items[k]);
            }
        }
        lemma_resolve_with_ok(pre, labels);
        assert(spec_item_ok(items[items.len() - 1]));
    }
}

/// Law: lowered code names only the 32 registers and holds no unknown
/// word, so every instruction of it is one the emulator executes.
pub proof fn lemma_lower_instrs_ok(prog: Program, entry: usize, args: Seq<i64>)
    requires
        spec_lower(prog, entry, args) is Some,
    ensures
        forall|k: int|
            0 <= k < spec_lower(prog, entry, args)->0.len() ==> spec_instr_ok(
                #[trigger] spec_lower(prog, entry, args)->0[k],
            ),
{
    let frames = spec_frames(prog)->0;
    let n = prog.funcs@.len();
    let fe = frames[entry as int];
    let pre = spec_entry_args(fe, args, 0)->0;
    let body = spec_lower_funcs(prog, frames, 0, n as usize).unwrap().0;
    lemma_entry_args_ok(fe, args, 0);
    lemma_lower_funcs_ok(prog, frames, 0, n as usize);
    let mid = seq![
        AItem::Raw(Instr::Addi(SP, SP, (-fe) as i32)),
        AItem::Jal(RA, entry),
        AItem::Raw(Instr::Ecall),
    ];
    lemma_items_ok_concat(pre, mid);
    lemma_items_ok_concat(pre + mid, body);
    let items = pre + mid + body;
    lemma_resolve_with_ok(items, spec_label_addrs(items));
}

} // verus!
