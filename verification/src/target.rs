use vstd::prelude::*;

pub use crate::emulator::{run, run_at, Cpu, HaltError};
pub use crate::lowering::{lower, run_native};

verus! {

pub const ZERO: u32 = 0;

pub const RA: u32 = 1;

pub const SP: u32 = 2;

pub const T0: u32 = 5;

pub const T1: u32 = 6;

pub const T2: u32 = 7;

pub const A0: u32 = 10;

pub const A1: u32 = 11;

/// The RV64I instructions the back end emits, plus any other word.
#[derive(Clone, Copy, PartialEq, Eq, Debug, Structural)]
pub enum Instr {
    Addi(u32, u32, i32),
    Add(u32, u32, u32),
    Sub(u32, u32, u32),
    Lui(u32, i32),
    Beq(u32, u32, i32),
    Bne(u32, u32, i32),
    Blt(u32, u32, i32),
    Jal(u32, i32),
    Jalr(u32, u32, i32),
    Ld(u32, u32, i32),
    Sd(u32, u32, i32),
    Ecall,
    Unknown(u32),
}

/// I-type layout: `imm[11:0] rs1 funct3 rd opcode`.
pub open spec fn spec_itype(op: u32, f3: u32, rd: u32, rs1: u32, imm: i32) -> u32 {
    ((((imm as u32) & 0xfff) << 20u32) | (rs1 << 15u32) | (f3 << 12u32) | (rd << 7u32) | op) as u32
}

/// R-type layout: `funct7 rs2 rs1 funct3 rd opcode`.
pub open spec fn spec_rtype(op: u32, f3: u32, f7: u32, rd: u32, rs1: u32, rs2: u32) -> u32 {
    ((f7 << 25u32) | (rs2 << 20u32) | (rs1 << 15u32) | (f3 << 12u32) | (rd << 7u32) | op) as u32
}

/// S-type layout: `imm[11:5] rs2 rs1 funct3 imm[4:0] opcode`.
pub open spec fn spec_stype(op: u32, f3: u32, rs1: u32, rs2: u32, imm: i32) -> u32 {
    let i = (imm as u32) & 0xfff;
    (((i >> 5u32) << 25u32) | (rs2 << 20u32) | (rs1 << 15u32) | (f3 << 12u32) | ((i & 0x1f) << 7u32)
        | op) as u32
}

/// B-type layout: `imm[12|10:5] rs2 rs1 funct3 imm[4:1|11] opcode`.
pub open spec fn spec_btype(op: u32, f3: u32, rs1: u32, rs2: u32, off: i32) -> u32 {
    let o = off as u32;
    ((((o >> 12u32) & 1) << 31u32) | (((o >> 5u32) & 0x3f) << 25u32) | (rs2 << 20u32) | (rs1
        << 15u32) | (f3 << 12u32) | (((o >> 1u32) & 0xf) << 8u32) | (((o >> 11u32) & 1) << 7u32)
        | op) as u32
}

/// J-type layout: `imm[20|10:1|11|19:12] rd opcode`.
pub open spec fn spec_jtype(op: u32, rd: u32, off: i32) -> u32 {
    let o = off as u32;
    ((((o >> 20u32) & 1) << 31u32) | (((o >> 1u32) & 0x3ff) << 21u32) | (((o >> 11u32) & 1)
        << 20u32) | (((o >> 12u32) & 0xff) << 12u32) | (rd << 7u32) | op) as u32
}

/// U-type layout for `lui`: `imm[31:12] rd opcode`.
pub open spec fn spec_utype(op: u32, rd: u32, imm: i32) -> u32 {
    ((((imm as u32) & 0xf_ffff) << 12u32) | (rd << 7u32) | op) as u32
}

/// Whether the immediate of an instruction fits its format (and branch
/// offsets are even).
pub open spec fn spec_encodable(i: Instr) -> bool {
    match i {
        Instr::Addi(_, _, imm) | Instr::Jalr(_, _, imm) | Instr::Ld(_, _, imm) | Instr::Sd(
            _,
            _,
            imm,
        ) => -2048 <= imm < 2048,
        Instr::Beq(_, _, off) | Instr::Bne(_, _, off) | Instr::Blt(_, _, off) => off % 2 == 0
            && -4096 <= off < 4096,
        Instr::Jal(_, off) => off % 2 == 0 && -0x10_0000 <= off < 0x10_0000,
        Instr::Lui(_, imm) => -0x8_0000 <= imm < 0x8_0000,
        _ => true,
    }
}

/// The machine word of an instruction.
pub open spec fn spec_encode(i: Instr) -> u32 {
    match i {
        Instr::Addi(rd, rs1, imm) => spec_itype(0x13, 0, rd, rs1, imm),
        Instr::Add(rd, rs1, rs2) => spec_rtype(0x33, 0, 0x00, rd, rs1, rs2),
        Instr::Sub(rd, rs1, rs2) => spec_rtype(0x33, 0, 0x20, rd, rs1, rs2),
        Instr::Lui(rd, imm) => spec_utype(0x37, rd, imm),
        Instr::Beq(rs1, rs2, off) => spec_btype(0x63, 0, rs1, rs2, off),
        Instr::Bne(rs1, rs2, off) => spec_btype(0x63, 1, rs1, rs2, off),
        Instr::Blt(rs1, rs2, off) => spec_btype(0x63, 4, rs1, rs2, off),
        Instr::Jal(rd, off) => spec_jtype(0x6f, rd, off),
        Instr::Jalr(rd, rs1, imm) => spec_itype(0x67, 0, rd, rs1, imm),
        Instr::Ld(rd, rs1, off) => spec_itype(0x03, 3, rd, rs1, off),
        Instr::Sd(rs2, rs1, off) => spec_stype(0x23, 3, rs1, rs2, off),
        Instr::Ecall => 0x73,
        Instr::Unknown(w) => w,
    }
}

/// Sign extension of the low `bits` bits.
pub open spec fn spec_sext(v: u32, bits: u32) -> i32 {
    (((v << ((32 - bits) as u32)) as i32) >> ((32 - bits) as u32)) as i32
}

pub open spec fn spec_imm_i(w: u32) -> i32 {
    ((w as i32) >> 20u32) as i32
}

pub open spec fn spec_imm_s(w: u32) -> i32 {
    spec_sext(((((w >> 25u32) & 0x7f) << 5u32) | ((w >> 7u32) & 0x1f)) as u32, 12)
}

pub open spec fn spec_imm_b(w: u32) -> i32 {
    spec_sext(
        ((((w >> 31u32) & 1) << 12u32) | (((w >> 7u32) & 1) << 11u32) | (((w >> 25u32) & 0x3f)
            << 5u32) | (((w >> 8u32) & 0xf) << 1u32)) as u32,
        13,
    )
}

pub open spec fn spec_imm_j(w: u32) -> i32 {
    spec_sext(
        ((((w >> 31u32) & 1) << 20u32) | (((w >> 12u32) & 0xff) << 12u32) | (((w >> 20u32) & 1)
            << 11u32) | (((w >> 21u32) & 0x3ff) << 1u32)) as u32,
        21,
    )
}

pub open spec fn spec_imm_u(w: u32) -> i32 {
    spec_sext((w >> 12u32) & 0xf_ffff, 20)
}

/// The instruction of a machine word, by opcode, funct3 and funct7.
pub open spec fn spec_decode(w: u32) -> Instr {
    let op = w & 0x7f;
    let rd = (w >> 7u32) & 0x1f;
    let f3 = (w >> 12u32) & 0x7;
    let rs1 = (w >> 15u32) & 0x1f;
    let rs2 = (w >> 20u32) & 0x1f;
    let f7 = (w >> 25u32) & 0x7f;
    if op == 0x13 && f3 == 0 {
        Instr::Addi(rd, rs1, spec_imm_i(w))
    } else if op == 0x33 && f3 == 0 && f7 == 0x00 {
        Instr::Add(rd, rs1, rs2)
    } else if op == 0x33 && f3 == 0 && f7 == 0x20 {
        Instr::Sub(rd, rs1, rs2)
    } else if op == 0x37 {
        Instr::Lui(rd, spec_imm_u(w))
    } else if op == 0x63 && f3 == 0 {
        Instr::Beq(rs1, rs2, spec_imm_b(w))
    } else if op == 0x63 && f3 == 1 {
        Instr::Bne(rs1, rs2, spec_imm_b(w))
    } else if op == 0x63 && f3 == 4 {
        Instr::Blt(rs1, rs2, spec_imm_b(w))
    } else if op == 0x6f {
        Instr::Jal(rd, spec_imm_j(w))
    } else if op == 0x67 && f3 == 0 {
        Instr::Jalr(rd, rs1, spec_imm_i(w))
    } else if op == 0x03 && f3 == 3 {
        Instr::Ld(rd, rs1, spec_imm_i(w))
    } else if op == 0x23 && f3 == 3 {
        Instr::Sd(rs2, rs1, spec_imm_s(w))
    } else if w == 0x73 {
        Instr::Ecall
    } else {
        Instr::Unknown(w)
    }
}

/// Whether every register field of an instruction names one of the 32
/// registers.
pub open spec fn spec_regs_valid(i: Instr) -> bool {
    match i {
        Instr::Addi(a, b, _) | Instr::Jalr(a, b, _) | Instr::Ld(a, b, _) | Instr::Sd(a, b, _)
        | Instr::Beq(a, b, _) | Instr::Bne(a, b, _) | Instr::Blt(a, b, _) => a < 32 && b < 32,
        Instr::Add(a, b, c) | Instr::Sub(a, b, c) => a < 32 && b < 32 && c < 32,
        Instr::Lui(a, _) | Instr::Jal(a, _) => a < 32,
        _ => true,
    }
}

fn itype(op: u32, f3: u32, rd: u32, rs1: u32, imm: i32) -> (r: u32)
    requires
        -2048 <= imm < 2048,
    ensures
        r == spec_itype(op, f3, rd, rs1, imm),
{
    (((imm as u32) & 0xfff) << 20) | (rs1 << 15) | (f3 << 12) | (rd << 7) | op
}

fn rtype(op: u32, f3: u32, f7: u32, rd: u32, rs1: u32, rs2: u32) -> (r: u32)
    ensures
        r == spec_rtype(op, f3, f7, rd, rs1, rs2),
{
    (f7 << 25) | (rs2 << 20) | (rs1 << 15) | (f3 << 12) | (rd << 7) | op
}

fn stype(op: u32, f3: u32, rs1: u32, rs2: u32, imm: i32) -> (r: u32)
    requires
        -2048 <= imm < 2048,
    ensures
        r == spec_stype(op, f3, rs1, rs2, imm),
{
    let i = (imm as u32) & 0xfff;
    ((i >> 5) << 25) | (rs2 << 20) | (rs1 << 15) | (f3 << 12) | ((i & 0x1f) << 7) | op
}

fn btype(op: u32, f3: u32, rs1: u32, rs2: u32, off: i32) -> (r: u32)
    requires
        off % 2 == 0,
        -4096 <= off < 4096,
    ensures
        r == spec_btype(op, f3, rs1, rs2, off),
{
    let o = off as u32;
    (((o >> 12) & 1) << 31) | (((o >> 5) & 0x3f) << 25) | (rs2 << 20) | (rs1 << 15) | (f3 << 12)
        | (((o >> 1) & 0xf) << 8) | (((o >> 11) & 1) << 7) | op
}

fn jtype(op: u32, rd: u32, off: i32) -> (r: u32)
    requires
        off % 2 == 0,
        -0x10_0000 <= off < 0x10_0000,
    ensures
        r == spec_jtype(op, rd, off),
{
    let o = off as u32;
    (((o >> 20) & 1) << 31) | (((o >> 1) & 0x3ff) << 21) | (((o >> 11) & 1) << 20) | (((o >> 12)
        & 0xff) << 12) | (rd << 7) | op
}

/// The machine word of an instruction whose immediate fits its format.
pub fn encode(i: Instr) -> (r: u32)
    requires
        spec_encodable(i),
    ensures
        r == spec_encode(i),
{
    match i {
        Instr::Addi(rd, rs1, imm) => itype(0x13, 0, rd, rs1, imm),
        Instr::Add(rd, rs1, rs2) => rtype(0x33, 0, 0x00, rd, rs1, rs2),
        Instr::Sub(rd, rs1, rs2) => rtype(0x33, 0, 0x20, rd, rs1, rs2),
        Instr::Lui(rd, imm) => (((imm as u32) & 0xf_ffff) << 12) | (rd << 7) | 0x37,
        Instr::Beq(rs1, rs2, off) => btype(0x63, 0, rs1, rs2, off),
        Instr::Bne(rs1, rs2, off) => btype(0x63, 1, rs1, rs2, off),
        Instr::Blt(rs1, rs2, off) => btype(0x63, 4, rs1, rs2, off),
        Instr::Jal(rd, off) => jtype(0x6f, rd, off),
        Instr::Jalr(rd, rs1, imm) => itype(0x67, 0, rd, rs1, imm),
        Instr::Ld(rd, rs1, off) => itype(0x03, 3, rd, rs1, off),
        Instr::Sd(rs2, rs1, off) => stype(0x23, 3, rs1, rs2, off),
        Instr::Ecall => 0x73,
        Instr::Unknown(w) => w,
    }
}

fn sext(v: u32, bits: u32) -> (r: i32)
    requires
        1 <= bits <= 32,
    ensures
        r == spec_sext(v, bits),
{
    let s = 32 - bits;
    ((v << s) as i32) >> s
}

/// The instruction of a machine word.
pub fn decode(w: u32) -> (r: Instr)
    ensures
        r == spec_decode(w),
        spec_encodable(r),
        spec_encode(r) == w,
{
    proof {
        lemma_decode_encodable(w);
        lemma_encode_decode(w);
    }
    let op = w & 0x7f;
    let rd = (w >> 7) & 0x1f;
    let f3 = (w >> 12) & 0x7;
    let rs1 = (w >> 15) & 0x1f;
    let rs2 = (w >> 20) & 0x1f;
    let f7 = (w >> 25) & 0x7f;
    let imm_i = (w as i32) >> 20;
    if op == 0x13 && f3 == 0 {
        Instr::Addi(rd, rs1, imm_i)
    } else if op == 0x33 && f3 == 0 && f7 == 0x00 {
        Instr::Add(rd, rs1, rs2)
    } else if op == 0x33 && f3 == 0 && f7 == 0x20 {
        Instr::Sub(rd, rs1, rs2)
    } else if op == 0x37 {
        Instr::Lui(rd, sext((w >> 12) & 0xf_ffff, 20))
    } else if op == 0x63 && (f3 == 0 || f3 == 1 || f3 == 4) {
        let imm_b = sext(
            (((w >> 31) & 1) << 12) | (((w >> 7) & 1) << 11) | (((w >> 25) & 0x3f) << 5) | (((w
                >> 8) & 0xf) << 1),
            13,
        );
        if f3 == 0 {
            Instr::Beq(rs1, rs2, imm_b)
        } else if f3 == 1 {
            Instr::Bne(rs1, rs2, imm_b)
        } else {
            Instr::Blt(rs1, rs2, imm_b)
        }
    } else if op == 0x6f {
        let imm_j = sext(
            (((w >> 31) & 1) << 20) | (((w >> 12) & 0xff) << 12) | (((w >> 20) & 1) << 11) | (((w
                >> 21) & 0x3ff) << 1),
            21,
        );
        Instr::Jal(rd, imm_j)
    } else if op == 0x67 && f3 == 0 {
        Instr::Jalr(rd, rs1, imm_i)
    } else if op == 0x03 && f3 == 3 {
        Instr::Ld(rd, rs1, imm_i)
    } else if op == 0x23 && f3 == 3 {
        Instr::Sd(rs2, rs1, sext((((w >> 25) & 0x7f) << 5) | ((w >> 7) & 0x1f), 12))
    } else if w == 0x73 {
        Instr::Ecall
    } else {
        Instr::Unknown(w)
    }
}

/// The little-endian bytes of a 32-bit word.
pub open spec fn spec_word_bytes(w: u32) -> Seq<u8> {
    seq![(w & 0xff) as u8, ((w >> 8u32) & 0xff) as u8, ((w >> 16u32) & 0xff) as u8, ((w >> 24u32)
        & 0xff) as u8]
}

/// The program image: each instruction's word, little-endian, in order.
pub open spec fn spec_assemble(code: Seq<Instr>) -> Seq<u8>
    decreases code.len(),
{
    if code.len() == 0 {
        Seq::empty()
    } else {
        spec_assemble(code.drop_last()) + spec_word_bytes(spec_encode(code.last()))
    }
}

/// Law: an image has four bytes per instruction.
pub proof fn lemma_assemble_len(code: Seq<Instr>)
    ensures
        spec_assemble(code).len() == 4 * code.len(),
    decreases code.len(),
{
    if code.len() > 0 {
        lemma_assemble_len(code.drop_last());
    }
}

/// Law: bytes `4k..4k+4` of an image are the little-endian bytes of
/// instruction `k`'s word.
pub proof fn lemma_assemble_index(code: Seq<Instr>, k: int, b: int)
    requires
        0 <= k < code.len(),
        0 <= b < 4,
    ensures
        spec_assemble(code)[4 * k + b] == spec_word_bytes(spec_encode(code[k]))[b],
    decreases code.len(),
{
    let pre = code.drop_last();
    lemma_assemble_len(pre);
    if k < code.len() - 1 {
        lemma_assemble_index(pre, k, b);
        lemma_assemble_len(pre);
    }
}

pub fn assemble(code: &[Instr]) -> (r: Vec<u8>)
    requires
        forall|k: int| 0 <= k < code@.len() ==> spec_encodable(#[trigger] code@[k]),
    ensures
        r@ == spec_assemble(code@),
        r@.len() == 4 * code@.len(),
        forall|k: int, b: int|
            0 <= k < code@.len() && 0 <= b < 4 ==> r@[4 * k + b] == #[trigger] spec_word_bytes(
                spec_encode(code@[k]),
            )[b],
{
    let mut out: Vec<u8> = Vec::new();
    let mut k: usize = 0;
    while k < code.len()
        invariant
            k <= code@.len(),
            forall|k2: int| 0 <= k2 < code@.len() ==> spec_encodable(#[trigger] code@[k2]),
            out@ == spec_assemble(code@.subrange(0, k as int)),
            out@.len() == 4 * k,
        decreases code@.len() - k,
    {
        let w = encode(code[k]);
        out.push((w & 0xff) as u8);
        out.push(((w >> 8) & 0xff) as u8);
        out.push(((w >> 16) & 0xff) as u8);
        out.push(((w >> 24) & 0xff) as u8);
        proof {
            assert(code@.subrange(0, k as int + 1).drop_last() =~= code@.subrange(0, k as int));
            assert(out@ =~= spec_assemble(code@.subrange(0, k as int)) + spec_word_bytes(w));
        }
        k = k + 1;
    }
    assert(code@.subrange(0, code@.len() as int) =~= code@);
    proof {
        assert forall|k: int, b: int| 0 <= k < code@.len() && 0 <= b < 4 implies out@[4 * k + b]
            == #[trigger] spec_word_bytes(spec_encode(code@[k]))[b] by {
            lemma_assemble_index(code@, k, b);
        }
    }
    out
}

proof fn lemma_itype_fields(op: u32, f3: u32, rd: u32, rs1: u32, imm: i32)
    by (bit_vector)
    requires
        op < 128,
        f3 < 8,
        rd < 32,
        rs1 < 32,
        -2048 <= imm < 2048,
    ensures
        ((((imm as u32) & 0xfff) << 20u32) | (rs1 << 15u32) | (f3 << 12u32) | (rd << 7u32) | op)
            & 0x7f == op,
        (((((imm as u32) & 0xfff) << 20u32) | (rs1 << 15u32) | (f3 << 12u32) | (rd << 7u32) | op)
            >> 7u32) & 0x1f == rd,
        (((((imm as u32) & 0xfff) << 20u32) | (rs1 << 15u32) | (f3 << 12u32) | (rd << 7u32) | op)
            >> 12u32) & 0x7 == f3,
        (((((imm as u32) & 0xfff) << 20u32) | (rs1 << 15u32) | (f3 << 12u32) | (rd << 7u32) | op)
            >> 15u32) & 0x1f == rs1,
        (((((((imm as u32) & 0xfff) << 20u32) | (rs1 << 15u32) | (f3 << 12u32) | (rd << 7u32)
            | op) as i32) >> 20u32) as i32) == imm,
{
}

proof fn lemma_rtype_fields(op: u32, f3: u32, f7: u32, rd: u32, rs1: u32, rs2: u32)
    by (bit_vector)
    requires
        op < 128,
        f3 < 8,
        f7 < 128,
        rd < 32,
        rs1 < 32,
        rs2 < 32,
    ensures
        ((f7 << 25u32) | (rs2 << 20u32) | (rs1 << 15u32) | (f3 << 12u32) | (rd << 7u32) | op)
            & 0x7f == op,
        (((f7 << 25u32) | (rs2 << 20u32) | (rs1 << 15u32) | (f3 << 12u32) | (rd << 7u32) | op)
            >> 7u32) & 0x1f == rd,
        (((f7 << 25u32) | (rs2 << 20u32) | (rs1 << 15u32) | (f3 << 12u32) | (rd << 7u32) | op)
            >> 12u32) & 0x7 == f3,
        (((f7 << 25u32) | (rs2 << 20u32) | (rs1 << 15u32) | (f3 << 12u32) | (rd << 7u32) | op)
            >> 15u32) & 0x1f == rs1,
        (((f7 << 25u32) | (rs2 << 20u32) | (rs1 << 15u32) | (f3 << 12u32) | (rd << 7u32) | op)
            >> 20u32) & 0x1f == rs2,
        (((f7 << 25u32) | (rs2 << 20u32) | (rs1 << 15u32) | (f3 << 12u32) | (rd << 7u32) | op)
            >> 25u32) & 0x7f == f7,
{
}

/// Law: decoding the word of an encodable instruction whose register
/// fields are in range gives back the instruction (for every instruction
/// the back end emits, that is every variant but `Unknown`).
pub proof fn lemma_decode_encode(i: Instr)
    requires
        spec_encodable(i),
        spec_regs_valid(i),
        !(i is Unknown),
    ensures
        spec_decode(spec_encode(i)) == i,
{
    match i {
        Instr::Addi(rd, rs1, imm) => {
            lemma_itype_fields(0x13, 0, rd, rs1, imm);
        },
        Instr::Jalr(rd, rs1, imm) => {
            lemma_itype_fields(0x67, 0, rd, rs1, imm);
        },
        Instr::Ld(rd, rs1, imm) => {
            lemma_itype_fields(0x03, 3, rd, rs1, imm);
        },
        Instr::Add(rd, rs1, rs2) => {
            lemma_rtype_fields(0x33, 0, 0, rd, rs1, rs2);
        },
        Instr::Sub(rd, rs1, rs2) => {
            lemma_rtype_fields(0x33, 0, 0x20, rd, rs1, rs2);
        },
        Instr::Sd(rs2, rs1, imm) => {
            lemma_stype_fields(0x23, 3, rs1, rs2, imm);
        },
        Instr::Beq(rs1, rs2, off) => {
            lemma_btype_fields(0x63, 0, rs1, rs2, off);
        },
        Instr::Bne(rs1, rs2, off) => {
            lemma_btype_fields(0x63, 1, rs1, rs2, off);
        },
        Instr::Blt(rs1, rs2, off) => {
            lemma_btype_fields(0x63, 4, rs1, rs2, off);
        },
        Instr::Jal(rd, off) => {
            lemma_jtype_fields(0x6f, rd, off);
        },
        Instr::Lui(rd, imm) => {
            lemma_utype_fields(0x37, rd, imm);
        },
        Instr::Ecall => {
            lemma_ecall_fields();
        },
        Instr::Unknown(_) => {},
    }
}

proof fn lemma_stype_fields(op: u32, f3: u32, rs1: u32, rs2: u32, imm: i32)
    by (bit_vector)
    requires
        op < 128,
        f3 < 8,
        rs1 < 32,
        rs2 < 32,
        -2048 <= imm < 2048,
    ensures
        spec_stype(op, f3, rs1, rs2, imm) & 0x7f == op,
        (spec_stype(op, f3, rs1, rs2, imm) >> 12u32) & 0x7 == f3,
        (spec_stype(op, f3, rs1, rs2, imm) >> 15u32) & 0x1f == rs1,
        (spec_stype(op, f3, rs1, rs2, imm) >> 20u32) & 0x1f == rs2,
        spec_imm_s(spec_stype(op, f3, rs1, rs2, imm)) == imm,
{
}

proof fn lemma_btype_fields(op: u32, f3: u32, rs1: u32, rs2: u32, off: i32)
    by (bit_vector)
    requires
        op < 128,
        f3 < 8,
        rs1 < 32,
        rs2 < 32,
        off % 2 == 0,
        -4096 <= off < 4096,
    ensures
        spec_btype(op, f3, rs1, rs2, off) & 0x7f == op,
        (spec_btype(op, f3, rs1, rs2, off) >> 12u32) & 0x7 == f3,
        (spec_btype(op, f3, rs1, rs2, off) >> 15u32) & 0x1f == rs1,
        (spec_btype(op, f3, rs1, rs2, off) >> 20u32) & 0x1f == rs2,
        spec_imm_b(spec_btype(op, f3, rs1, rs2, off)) == off,
{
}

proof fn lemma_jtype_fields(op: u32, rd: u32, off: i32)
    by (bit_vector)
    requires
        op < 128,
        rd < 32,
        off % 2 == 0,
        -0x10_0000 <= off < 0x10_0000,
    ensures
        spec_jtype(op, rd, off) & 0x7f == op,
        (spec_jtype(op, rd, off) >> 7u32) & 0x1f == rd,
        spec_imm_j(spec_jtype(op, rd, off)) == off,
{
}

proof fn lemma_utype_fields(op: u32, rd: u32, imm: i32)
    by (bit_vector)
    requires
        op < 128,
        rd < 32,
        -0x8_0000 <= imm < 0x8_0000,
    ensures
        spec_utype(op, rd, imm) & 0x7f == op,
        (spec_utype(op, rd, imm) >> 7u32) & 0x1f == rd,
        spec_imm_u(spec_utype(op, rd, imm)) == imm,
{
}

proof fn lemma_ecall_fields()
    by (bit_vector)
    ensures
        0x73u32 & 0x7f == 0x73,
{
}


proof fn lemma_itype_word(w: u32)
    by (bit_vector)
    ensures
        spec_itype(w & 0x7f, (w >> 12u32) & 0x7, (w >> 7u32) & 0x1f, (w >> 15u32) & 0x1f, spec_imm_i(w))
            == w,
{
}

proof fn lemma_rtype_word(w: u32)
    by (bit_vector)
    ensures
        spec_rtype(
            w & 0x7f,
            (w >> 12u32) & 0x7,
            (w >> 25u32) & 0x7f,
            (w >> 7u32) & 0x1f,
            (w >> 15u32) & 0x1f,
            (w >> 20u32) & 0x1f,
        ) == w,
{
}

proof fn lemma_stype_word(w: u32)
    by (bit_vector)
    ensures
        spec_stype(w & 0x7f, (w >> 12u32) & 0x7, (w >> 15u32) & 0x1f, (w >> 20u32) & 0x1f, spec_imm_s(w))
            == w,
{
}

proof fn lemma_btype_word(w: u32)
    by (bit_vector)
    ensures
        spec_btype(w & 0x7f, (w >> 12u32) & 0x7, (w >> 15u32) & 0x1f, (w >> 20u32) & 0x1f, spec_imm_b(w))
            == w,
{
}

proof fn lemma_jtype_word(w: u32)
    by (bit_vector)
    ensures
        spec_jtype(w & 0x7f, (w >> 7u32) & 0x1f, spec_imm_j(w)) == w,
{
}

proof fn lemma_utype_word(w: u32)
    by (bit_vector)
    ensures
        spec_utype(w & 0x7f, (w >> 7u32) & 0x1f, spec_imm_u(w)) == w,
{
}

/// Law: encoding the instruction that a word decodes to gives back the
/// word, for every 32-bit word.
pub proof fn lemma_encode_decode(w: u32)
    ensures
        spec_encode(spec_decode(w)) == w,
{
    lemma_itype_word(w);
    lemma_rtype_word(w);
    lemma_stype_word(w);
    lemma_btype_word(w);
    lemma_jtype_word(w);
    lemma_utype_word(w);
}


proof fn lemma_imm_i_range(w: u32)
    by (bit_vector)
    ensures
        -2048 <= spec_imm_i(w) < 2048,
{
}

proof fn lemma_imm_s_range(w: u32)
    by (bit_vector)
    ensures
        -2048 <= spec_imm_s(w) < 2048,
{
}

proof fn lemma_imm_b_range(w: u32)
    by (bit_vector)
    ensures
        -4096 <= spec_imm_b(w) < 4096,
        spec_imm_b(w) & 1 == 0,
{
}

proof fn lemma_imm_j_range(w: u32)
    by (bit_vector)
    ensures
        -0x10_0000 <= spec_imm_j(w) < 0x10_0000,
        spec_imm_j(w) & 1 == 0,
{
}

proof fn lemma_imm_u_range(w: u32)
    by (bit_vector)
    ensures
        -0x8_0000 <= spec_imm_u(w) < 0x8_0000,
{
}

proof fn lemma_even(x: i32)
    by (bit_vector)
    requires
        x & 1 == 0,
    ensures
        x % 2 == 0,
{
}

/// Law: every instruction that a word decodes to has its immediate in
/// range, so it can be encoded again.
pub proof fn lemma_decode_encodable(w: u32)
    ensures
        spec_encodable(spec_decode(w)),
{
    lemma_imm_i_range(w);
    lemma_imm_s_range(w);
    lemma_imm_b_range(w);
    lemma_imm_j_range(w);
    lemma_imm_u_range(w);
    lemma_even(spec_imm_b(w));
    lemma_even(spec_imm_j(w));
}

/// Law: the words of the RV64I table. Each instruction's word carries its
/// opcode in bits 6:0, its funct3 in bits 14:12 (and `sub` its funct7 in
/// bits 31:25), `rd` in bits 11:7, `rs1` in bits 19:15 and `rs2` in bits
/// 24:20: `addi` 0x13/0, `add` 0x33/0/0x00, `sub` 0x33/0/0x20, `lui` 0x37,
/// `beq` 0x63/0, `bne` 0x63/1, `blt` 0x63/4, `jal` 0x6f, `jalr` 0x67/0,
/// `ld` 0x03/3, `sd` 0x23/3, `ecall` the word 0x73.
pub proof fn lemma_encode_table(i: Instr)
    requires
        spec_encodable(i),
        spec_regs_valid(i),
    ensures
        ({
            let w = spec_encode(i);
            let op = w & 0x7f;
            let f3 = (w >> 12u32) & 0x7;
            let f7 = (w >> 25u32) & 0x7f;
            let rd = (w >> 7u32) & 0x1f;
            let rs1 = (w >> 15u32) & 0x1f;
            let rs2 = (w >> 20u32) & 0x1f;
            match i {
                Instr::Addi(d, s1, _) => op == 0x13 && f3 == 0 && rd == d && rs1 == s1,
                Instr::Add(d, s1, s2) => op == 0x33 && f3 == 0 && f7 == 0 && rd == d && rs1 == s1
                    && rs2 == s2,
                Instr::Sub(d, s1, s2) => op == 0x33 && f3 == 0 && f7 == 0x20 && rd == d && rs1
                    == s1 && rs2 == s2,
                Instr::Lui(d, _) => op == 0x37 && rd == d,
                Instr::Beq(s1, s2, _) => op == 0x63 && f3 == 0 && rs1 == s1 && rs2 == s2,
                Instr::Bne(s1, s2, _) => op == 0x63 && f3 == 1 && rs1 == s1 && rs2 == s2,
                Instr::Blt(s1, s2, _) => op == 0x63 && f3 == 4 && rs1 == s1 && rs2 == s2,
                Instr::Jal(d, _) => op == 0x6f && rd == d,
                Instr::Jalr(d, s1, _) => op == 0x67 && f3 == 0 && rd == d && rs1 == s1,
                Instr::Ld(d, s1, _) => op == 0x03 && f3 == 3 && rd == d && rs1 == s1,
                Instr::Sd(s2, s1, _) => op == 0x23 && f3 == 3 && rs1 == s1 && rs2 == s2,
                Instr::Ecall => w == 0x73,
                Instr::Unknown(x) => w == x,
            }
        }),
{
    match i {
        Instr::Addi(rd, rs1, imm) => {
            lemma_itype_fields(0x13, 0, rd, rs1, imm);
        },
        Instr::Jalr(rd, rs1, imm) => {
            lemma_itype_fields(0x67, 0, rd, rs1, imm);
        },
        Instr::Ld(rd, rs1, imm) => {
            lemma_itype_fields(0x03, 3, rd, rs1, imm);
        },
        Instr::Add(rd, rs1, rs2) => {
            lemma_rtype_fields(0x33, 0, 0, rd, rs1, rs2);
        },
        Instr::Sub(rd, rs1, rs2) => {
            lemma_rtype_fields(0x33, 0, 0x20, rd, rs1, rs2);
        },
        Instr::Sd(rs2, rs1, imm) => {
            lemma_stype_fields(0x23, 3, rs1, rs2, imm);
        },
        Instr::Beq(rs1, rs2, off) => {
            lemma_btype_fields(0x63, 0, rs1, rs2, off);
        },
        Instr::Bne(rs1, rs2, off) => {
            lemma_btype_fields(0x63, 1, rs1, rs2, off);
        },
        Instr::Blt(rs1, rs2, off) => {
            lemma_btype_fields(0x63, 4, rs1, rs2, off);
        },
        Instr::Jal(rd, off) => {
            lemma_jtype_fields(0x6f, rd, off);
        },
        Instr::Lui(rd, imm) => {
            lemma_utype_fields(0x37, rd, imm);
        },
        _ => {},
    }
}

/// Law: decoding reads the RV64I table: a word with opcode 0x63 is `beq`,
/// `bne` or `blt` by funct3 0, 1 or 4, with `rs1` from bits 19:15 and
/// `rs2` from bits 24:20; opcode 0x13 with funct3 0 is `addi`; 0x33 with
/// funct3 0 is `add` for funct7 0 and `sub` for funct7 0x20.
pub proof fn lemma_decode_table(w: u32)
    ensures
        ({
            let op = w & 0x7f;
            let f3 = (w >> 12u32) & 0x7;
            let f7 = (w >> 25u32) & 0x7f;
            let rd = (w >> 7u32) & 0x1f;
            let rs1 = (w >> 15u32) & 0x1f;
            let rs2 = (w >> 20u32) & 0x1f;
            &&& op == 0x63 && f3 == 0 ==> spec_decode(w) == Instr::Beq(rs1, rs2, spec_imm_b(w))
            &&& op == 0x63 && f3 == 1 ==> spec_decode(w) == Instr::Bne(rs1, rs2, spec_imm_b(w))
            &&& op == 0x63 && f3 == 4 ==> spec_decode(w) == Instr::Blt(rs1, rs2, spec_imm_b(w))
            &&& op == 0x13 && f3 == 0 ==> spec_decode(w) == Instr::Addi(rd, rs1, spec_imm_i(w))
            &&& op == 0x33 && f3 == 0 && f7 == 0 ==> spec_decode(w) == Instr::Add(rd, rs1, rs2)
            &&& op == 0x33 && f3 == 0 && f7 == 0x20 ==> spec_decode(w) == Instr::Sub(rd, rs1, rs2)
        }),
{
}
} // verus!
