use crate::target::{
    decode, lemma_assemble_index, lemma_assemble_len, lemma_decode_encode, spec_assemble, spec_decode, spec_encodable, spec_encode,
    spec_regs_valid, spec_word_bytes, Instr, SP,
};
use std::collections::HashMap;
use vstd::prelude::*;

verus! {

broadcast use vstd::std_specs::hash::group_hash_axioms;

/// Where the stack pointer starts.
pub const STACK_TOP: u64 = 0x10_0000;

/// Why a run of the emulator stopped without reaching `ecall`.
#[derive(Debug, PartialEq, Eq, Structural)]
pub enum HaltError {
    Stuck,
    OutOfResources,
}

/// The state the emulator's rules speak of: the 32 registers, the program
/// counter, and every byte of memory that was ever written (an address
/// outside the map reads as zero).
pub struct Machine {
    pub regs: Seq<i64>,
    pub pc: u64,
    pub mem: Map<u64, u8>,
}

/// A little RV64I machine: registers, program counter and a sparse
/// byte-addressed memory.
pub struct Cpu {
    pub regs: [i64; 32],
    pub pc: u64,
    pub mem: HashMap<u64, u8>,
}

impl View for Cpu {
    type V = Machine;

    open spec fn view(&self) -> Machine {
        Machine { regs: self.regs@, pc: self.pc, mem: self.mem@ }
    }
}

/// Register `r`; register 0 always reads as zero.
pub open spec fn spec_reg(m: Machine, r: u32) -> i64 {
    if r == 0 {
        0
    } else {
        m.regs[r as int]
    }
}

/// The machine with register `r` set to `v`; writes to register 0 are
/// dropped.
pub open spec fn spec_set(m: Machine, r: u32, v: i64) -> Machine {
    if r == 0 {
        m
    } else {
        Machine { regs: m.regs.update(r as int, v), pc: m.pc, mem: m.mem }
    }
}

pub open spec fn spec_load8(mem: Map<u64, u8>, a: u64) -> u8 {
    if mem.contains_key(a) {
        mem[a]
    } else {
        0
    }
}

/// The little-endian word at `a`.
pub open spec fn spec_load32(mem: Map<u64, u8>, a: u64) -> u32 {
    (spec_load8(mem, a) as u32) | ((spec_load8(mem, (a + 1) as u64) as u32) << 8u32) | ((
    spec_load8(mem, (a + 2) as u64) as u32) << 16u32) | ((spec_load8(mem, (a + 3) as u64) as u32)
        << 24u32)
}

/// The little-endian doubleword at `a`.
pub open spec fn spec_load64(mem: Map<u64, u8>, a: u64) -> i64 {
    ((spec_load8(mem, a) as u64) | ((spec_load8(mem, (a + 1) as u64) as u64) << 8u64) | ((
    spec_load8(mem, (a + 2) as u64) as u64) << 16u64) | ((spec_load8(mem, (a + 3) as u64) as u64)
        << 24u64) | ((spec_load8(mem, (a + 4) as u64) as u64) << 32u64) | ((spec_load8(
        mem,
        (a + 5) as u64,
    ) as u64) << 40u64) | ((spec_load8(mem, (a + 6) as u64) as u64) << 48u64) | ((spec_load8(
        mem,
        (a + 7) as u64,
    ) as u64) << 56u64)) as i64
}

/// Memory after writing the eight little-endian bytes of `val` at `a`.
pub open spec fn spec_store64(mem: Map<u64, u8>, a: u64, val: i64) -> Map<u64, u8> {
    let v = val as u64;
    mem.insert(a, (v & 0xff) as u8).insert((a + 1) as u64, ((v >> 8u64) & 0xff) as u8).insert(
        (a + 2) as u64,
        ((v >> 16u64) & 0xff) as u8,
    ).insert((a + 3) as u64, ((v >> 24u64) & 0xff) as u8).insert(
        (a + 4) as u64,
        ((v >> 32u64) & 0xff) as u8,
    ).insert((a + 5) as u64, ((v >> 40u64) & 0xff) as u8).insert(
        (a + 6) as u64,
        ((v >> 48u64) & 0xff) as u8,
    ).insert((a + 7) as u64, ((v >> 56u64) & 0xff) as u8)
}

/// The machine moved on to the next instruction; `None` where the program
/// counter would pass the top of the address space.
pub open spec fn spec_advance(m: Machine) -> Option<Machine> {
    if m.pc <= u64::MAX - 4 {
        Some(Machine { regs: m.regs, pc: (m.pc + 4) as u64, mem: m.mem })
    } else {
        None
    }
}

pub open spec fn spec_with_pc(m: Machine, pc: u64) -> Machine {
    Machine { regs: m.regs, pc, mem: m.mem }
}

/// The effective address of a load or store.
pub open spec fn spec_addr(m: Machine, rs1: u32, off: i32) -> u64 {
    spec_reg(m, rs1).wrapping_add(off as i64) as u64
}

/// One step of an instruction. `None` is a fault: a register number
/// past 31, a program counter stepping past the top of the address space,
/// or a doubleword access that would run past it.
pub open spec fn spec_exec(m: Machine, i: Instr) -> Option<Machine> {
    if !spec_regs_valid(i) {
        None
    } else {
        match i {
            Instr::Addi(rd, rs1, imm) => spec_advance(
                spec_set(m, rd, spec_reg(m, rs1).wrapping_add(imm as i64)),
            ),
            Instr::Add(rd, rs1, rs2) => spec_advance(
                spec_set(m, rd, spec_reg(m, rs1).wrapping_add(spec_reg(m, rs2))),
            ),
            Instr::Sub(rd, rs1, rs2) => spec_advance(
                spec_set(m, rd, spec_reg(m, rs1).wrapping_sub(spec_reg(m, rs2))),
            ),
            Instr::Lui(rd, imm) => spec_advance(spec_set(m, rd, ((imm as i64) * 4096) as i64)),
            Instr::Beq(rs1, rs2, off) => if spec_reg(m, rs1) == spec_reg(m, rs2) {
                Some(spec_with_pc(m, m.pc.wrapping_add(off as i64 as u64)))
            } else {
                spec_advance(m)
            },
            Instr::Bne(rs1, rs2, off) => if spec_reg(m, rs1) != spec_reg(m, rs2) {
                Some(spec_with_pc(m, m.pc.wrapping_add(off as i64 as u64)))
            } else {
                spec_advance(m)
            },
            Instr::Blt(rs1, rs2, off) => if spec_reg(m, rs1) < spec_reg(m, rs2) {
                Some(spec_with_pc(m, m.pc.wrapping_add(off as i64 as u64)))
            } else {
                spec_advance(m)
            },
            Instr::Jal(rd, off) => Some(
                spec_with_pc(
                    spec_set(m, rd, m.pc.wrapping_add(4) as i64),
                    m.pc.wrapping_add(off as i64 as u64),
                ),
            ),
            Instr::Jalr(rd, rs1, imm) => Some(
                spec_with_pc(
                    spec_set(m, rd, m.pc.wrapping_add(4) as i64),
                    (spec_reg(m, rs1).wrapping_add(imm as i64) as u64) & !1u64,
                ),
            ),
            Instr::Ld(rd, rs1, off) => {
                let a = spec_addr(m, rs1, off);
                if a <= u64::MAX - 7 {
                    spec_advance(spec_set(m, rd, spec_load64(m.mem, a)))
                } else {
                    None
                }
            },
            Instr::Sd(rs2, rs1, off) => {
                let a = spec_addr(m, rs1, off);
                if a <= u64::MAX - 7 {
                    spec_advance(
                        Machine {
                            regs: m.regs,
                            pc: m.pc,
                            mem: spec_store64(m.mem, a, spec_reg(m, rs2)),
                        },
                    )
                } else {
                    None
                }
            },
            Instr::Ecall => Some(m),
            Instr::Unknown(_) => Some(m),
        }
    }
}

/// Up to `fuel` fetch-decode-execute steps: `ecall` stops with the
/// machine, an unknown word with `Stuck`, an empty tank with
/// `OutOfResources`. `None` is a fault (see `spec_exec`, and a fetch past
/// the top of the address space).
pub open spec fn spec_run_from(m: Machine, fuel: nat) -> Option<Result<Machine, HaltError>>
    decreases fuel,
{
    if fuel == 0 {
        Some(Err(HaltError::OutOfResources))
    } else if m.pc > u64::MAX - 3 {
        None
    } else {
        match spec_decode(spec_load32(m.mem, m.pc)) {
            Instr::Ecall => Some(Ok(m)),
            Instr::Unknown(_) => Some(Err(HaltError::Stuck)),
            i => match spec_exec(m, i) {
                Some(next) => spec_run_from(next, (fuel - 1) as nat),
                None => None,
            },
        }
    }
}

/// The machine a run starts from: the image at `base`, the program counter
/// on its first byte, every register zero but the stack pointer.
pub open spec fn spec_boot(code: Seq<u8>, base: u64) -> Machine {
    Machine {
        regs: Seq::new(32, |k: int| if k == SP as int { STACK_TOP as i64 } else { 0i64 }),
        pc: base,
        mem: Map::new(|a: u64| base <= a < base + code.len(), |a: u64| code[a - base]),
    }
}

pub open spec fn spec_run_at(code: Seq<u8>, fuel: nat, base: u64) -> Option<
    Result<Machine, HaltError>,
> {
    spec_run_from(spec_boot(code, base), fuel)
}

impl Cpu {
    fn new() -> (c: Cpu)
        ensures
            c@.regs == Seq::new(32, |k: int| 0i64),
            c@.pc == 0,
            c@.mem == Map::<u64, u8>::empty(),
    {
        let c = Cpu { regs: [0i64; 32], pc: 0, mem: HashMap::new() };
        assert(c.regs@ =~= Seq::new(32, |k: int| 0i64));
        c
    }

    /// Register `r`; register 0 always reads as zero.
    pub fn reg(&self, r: u32) -> (v: i64)
        requires
            r < 32,
        ensures
            v == spec_reg(self@, r),
    {
        if r == 0 {
            0
        } else {
            self.regs[r as usize]
        }
    }

    fn set(&mut self, r: u32, v: i64)
        requires
            r < 32,
        ensures
            final(self)@ == spec_set(old(self)@, r, v),
    {
        if r != 0 {
            self.regs[r as usize] = v;
            assert(self.regs@ =~= old(self).regs@.update(r as int, v));
        }
    }

    fn load8(&self, a: u64) -> (b: u8)
        ensures
            b == spec_load8(self@.mem, a),
    {
        match self.mem.get(&a) {
            Some(b) => *b,
            None => 0,
        }
    }

    fn store8(&mut self, a: u64, b: u8)
        ensures
            final(self)@ == (Machine {
                regs: old(self)@.regs,
                pc: old(self)@.pc,
                mem: old(self)@.mem.insert(a, b),
            }),
    {
        self.mem.insert(a, b);
    }

    fn load32(&self, a: u64) -> (w: u32)
        requires
            a <= u64::MAX - 3,
        ensures
            w == spec_load32(self@.mem, a),
    {
        (self.load8(a) as u32) | ((self.load8(a + 1) as u32) << 8) | ((self.load8(a + 2) as u32)
            << 16) | ((self.load8(a + 3) as u32) << 24)
    }

    /// The little-endian doubleword at `a`.
    pub fn load64(&self, a: u64) -> (v: i64)
        requires
            a <= u64::MAX - 7,
        ensures
            v == spec_load64(self@.mem, a),
    {
        let v = (self.load8(a) as u64) | ((self.load8(a + 1) as u64) << 8) | ((self.load8(a + 2)
            as u64) << 16) | ((self.load8(a + 3) as u64) << 24) | ((self.load8(a + 4) as u64)
            << 32) | ((self.load8(a + 5) as u64) << 40) | ((self.load8(a + 6) as u64) << 48) | ((
        self.load8(a + 7) as u64) << 56);
        v as i64
    }

    /// Writes the eight little-endian bytes of `val` at `a`.
    pub fn store64(&mut self, a: u64, val: i64)
        requires
            a <= u64::MAX - 7,
        ensures
            final(self)@ == (Machine {
                regs: old(self)@.regs,
                pc: old(self)@.pc,
                mem: spec_store64(old(self)@.mem, a, val),
            }),
    {
        let v = val as u64;
        self.store8(a, (v & 0xff) as u8);
        self.store8(a + 1, ((v >> 8) & 0xff) as u8);
        self.store8(a + 2, ((v >> 16) & 0xff) as u8);
        self.store8(a + 3, ((v >> 24) & 0xff) as u8);
        self.store8(a + 4, ((v >> 32) & 0xff) as u8);
        self.store8(a + 5, ((v >> 40) & 0xff) as u8);
        self.store8(a + 6, ((v >> 48) & 0xff) as u8);
        self.store8(a + 7, ((v >> 56) & 0xff) as u8);
    }

    fn advance(&mut self)
        requires
            old(self).pc <= u64::MAX - 4,
        ensures
            Some(final(self)@) == spec_advance(old(self)@),
    {
        self.pc = self.pc + 4;
    }

    fn exec(&mut self, i: Instr)
        requires
            spec_exec(old(self)@, i) is Some,
        ensures
            Some(final(self)@) == spec_exec(old(self)@, i),
    {
        match i {
            Instr::Addi(rd, rs1, imm) => {
                let v = self.reg(rs1).wrapping_add(imm as i64);
                self.set(rd, v);
                self.advance();
            },
            Instr::Add(rd, rs1, rs2) => {
                let v = self.reg(rs1).wrapping_add(self.reg(rs2));
                self.set(rd, v);
                self.advance();
            },
            Instr::Sub(rd, rs1, rs2) => {
                let v = self.reg(rs1).wrapping_sub(self.reg(rs2));
                self.set(rd, v);
                self.advance();
            },
            Instr::Lui(rd, imm) => {
                self.set(rd, (imm as i64) * 4096);
                self.advance();
            },
            Instr::Beq(rs1, rs2, off) => {
                if self.reg(rs1) == self.reg(rs2) {
                    self.pc = self.pc.wrapping_add(off as i64 as u64);
                } else {
                    self.advance();
                }
            },
            Instr::Bne(rs1, rs2, off) => {
                if self.reg(rs1) != self.reg(rs2) {
                    self.pc = self.pc.wrapping_add(off as i64 as u64);
                } else {
                    self.advance();
                }
            },
            Instr::Blt(rs1, rs2, off) => {
                if self.reg(rs1) < self.reg(rs2) {
                    self.pc = self.pc.wrapping_add(off as i64 as u64);
                } else {
                    self.advance();
                }
            },
            Instr::Jal(rd, off) => {
                let ret = self.pc.wrapping_add(4);
                self.set(rd, ret as i64);
                self.pc = self.pc.wrapping_add(off as i64 as u64);
            },
            Instr::Jalr(rd, rs1, imm) => {
                let ret = self.pc.wrapping_add(4);
                let t = (self.reg(rs1).wrapping_add(imm as i64) as u64) & !1u64;
                self.set(rd, ret as i64);
                self.pc = t;
            },
            Instr::Ld(rd, rs1, off) => {
                let a = self.reg(rs1).wrapping_add(off as i64) as u64;
                let v = self.load64(a);
                self.set(rd, v);
                self.advance();
            },
            Instr::Sd(rs2, rs1, off) => {
                let a = self.reg(rs1).wrapping_add(off as i64) as u64;
                let v = self.reg(rs2);
                self.store64(a, v);
                self.advance();
            },
            Instr::Ecall => {},
            Instr::Unknown(_) => {},
        }
    }
}

/// Runs an image loaded at address 0; see `run_at`.
pub fn run(code: &[u8], fuel: usize) -> (r: Result<Cpu, HaltError>)
    requires
        spec_run_at(code@, fuel as nat, 0) is Some,
    ensures
        match r {
            Ok(c) => spec_run_at(code@, fuel as nat, 0) == Some(Ok::<Machine, HaltError>(c@)),
            Err(e) => spec_run_at(code@, fuel as nat, 0) == Some(Err::<Machine, HaltError>(e)),
        },
        r matches Ok(c) ==> spec_decode(spec_load32(c@.mem, c@.pc)) == Instr::Ecall && c.regs@[0]
            == 0,
        fuel == 0 ==> r == Err::<Cpu, HaltError>(HaltError::OutOfResources),
{
    let len = code.len();
    assert(len as int == code@.len());
    run_at(code, fuel, 0)
}

/// Loads `code` at `base` and runs it for at most `fuel` instructions.
/// The run is the one `spec_run_at` describes; the caller rules out the
/// runs that would fault.
pub fn run_at(code: &[u8], fuel: usize, base: u64) -> (r: Result<Cpu, HaltError>)
    requires
        base + code@.len() <= u64::MAX + 1,
        spec_run_at(code@, fuel as nat, base) is Some,
    ensures
        match r {
            Ok(c) => spec_run_at(code@, fuel as nat, base) == Some(Ok::<Machine, HaltError>(c@)),
            Err(e) => spec_run_at(code@, fuel as nat, base) == Some(Err::<Machine, HaltError>(e)),
        },
        r matches Ok(c) ==> spec_decode(spec_load32(c@.mem, c@.pc)) == Instr::Ecall && c.regs@[0]
            == 0,
        fuel == 0 ==> r == Err::<Cpu, HaltError>(HaltError::OutOfResources),
{
    proof {
        lemma_run_at_halts_at_ecall(code@, fuel as nat, base);
    }
    let mut cpu = boot(code, base);
    let mut n: usize = 0;
    while n < fuel
        invariant
            n <= fuel,
            spec_run_from(cpu@, (fuel - n) as nat) == spec_run_at(code@, fuel as nat, base),
            spec_run_at(code@, fuel as nat, base) is Some,
        decreases fuel - n,
    {
        let w = cpu.load32(cpu.pc);
        let inst = decode(w);
        match inst {
            Instr::Ecall => {
                proof {
                    lemma_run_at_halts_at_ecall(code@, fuel as nat, base);
                }
                return Ok(cpu);
            },
            Instr::Unknown(_) => {
                return Err(HaltError::Stuck);
            },
            other => {
                cpu.exec(other);
            },
        }
        n = n + 1;
    }
    Err(HaltError::OutOfResources)
}

/// The processor with `code` loaded at `base`, as `spec_boot` describes.
fn boot(code: &[u8], base: u64) -> (c: Cpu)
    requires
        base + code@.len() <= u64::MAX + 1,
    ensures
        c@ == spec_boot(code@, base),
{
    let mut cpu = Cpu::new();
    let mut k: usize = 0;
    while k < code.len()
        invariant
            k <= code@.len(),
            base + code@.len() <= u64::MAX + 1,
            cpu@.regs == Seq::new(32, |j: int| 0i64),
            cpu@.pc == 0,
            cpu@.mem == Map::new(
                |a: u64| base <= a < base + k,
                |a: u64| code@[a - base],
            ),
        decreases code@.len() - k,
    {
        let ghost before = cpu@.mem;
        cpu.mem.insert(base + k as u64, code[k]);
        assert(cpu@.mem =~= Map::new(
            |a: u64| base <= a < base + (k + 1),
            |a: u64| code@[a - base],
        )) by {
            assert(cpu@.mem == before.insert((base + k) as u64, code@[k as int]));
        }
        k = k + 1;
    }
    cpu.pc = base;
    cpu.regs[SP as usize] = STACK_TOP as i64;
    assert(cpu@ == spec_boot(code@, base)) by {
        assert(cpu@.regs =~= spec_boot(code@, base).regs);
        assert(cpu@.mem =~= spec_boot(code@, base).mem);
    }
    cpu
}

/// Which instructions fault on the processor (see `spec_exec`).
fn faults(cpu: &Cpu, i: Instr) -> (r: bool)
    ensures
        r == (spec_exec(cpu@, i) is None),
{
    let valid = match i {
        Instr::Addi(a, b, _) => a < 32 && b < 32,
        Instr::Jalr(a, b, _) => a < 32 && b < 32,
        Instr::Ld(a, b, _) => a < 32 && b < 32,
        Instr::Sd(a, b, _) => a < 32 && b < 32,
        Instr::Beq(a, b, _) => a < 32 && b < 32,
        Instr::Bne(a, b, _) => a < 32 && b < 32,
        Instr::Blt(a, b, _) => a < 32 && b < 32,
        Instr::Add(a, b, c) => a < 32 && b < 32 && c < 32,
        Instr::Sub(a, b, c) => a < 32 && b < 32 && c < 32,
        Instr::Lui(a, _) => a < 32,
        Instr::Jal(a, _) => a < 32,
        _ => true,
    };
    if !valid {
        return true;
    }
    let at_top = cpu.pc > u64::MAX - 4;
    match i {
        Instr::Addi(..) | Instr::Add(..) | Instr::Sub(..) | Instr::Lui(..) => at_top,
        Instr::Beq(rs1, rs2, _) => !(cpu.reg(rs1) == cpu.reg(rs2)) && at_top,
        Instr::Bne(rs1, rs2, _) => !(cpu.reg(rs1) != cpu.reg(rs2)) && at_top,
        Instr::Blt(rs1, rs2, _) => !(cpu.reg(rs1) < cpu.reg(rs2)) && at_top,
        Instr::Ld(_, rs1, off) | Instr::Sd(_, rs1, off) => {
            let a = cpu.reg(rs1).wrapping_add(off as i64) as u64;
            a > u64::MAX - 7 || at_top
        },
        _ => false,
    }
}

/// Loads `code` at `base` and runs it for at most `fuel` instructions;
/// `None` where the run faults (see `spec_run_from`).
pub fn try_run_at(code: &[u8], fuel: usize, base: u64) -> (r: Option<Result<Cpu, HaltError>>)
    requires
        base + code@.len() <= u64::MAX + 1,
    ensures
        match r {
            None => spec_run_at(code@, fuel as nat, base) is None,
            Some(Ok(c)) => spec_run_at(code@, fuel as nat, base) == Some(
                Ok::<Machine, HaltError>(c@),
            ),
            Some(Err(e)) => spec_run_at(code@, fuel as nat, base) == Some(
                Err::<Machine, HaltError>(e),
            ),
        },
{
    let mut cpu = boot(code, base);
    let mut n: usize = 0;
    while n < fuel
        invariant
            n <= fuel,
            spec_run_from(cpu@, (fuel - n) as nat) == spec_run_at(code@, fuel as nat, base),
        decreases fuel - n,
    {
        if cpu.pc > u64::MAX - 3 {
            return None;
        }
        let w = cpu.load32(cpu.pc);
        let inst = decode(w);
        match inst {
            Instr::Ecall => {
                return Some(Ok(cpu));
            },
            Instr::Unknown(_) => {
                return Some(Err(HaltError::Stuck));
            },
            other => {
                if faults(&cpu, other) {
                    return None;
                }
                cpu.exec(other);
            },
        }
        n = n + 1;
    }
    Some(Err(HaltError::OutOfResources))
}

/// Law: reading a doubleword back from where it was just written gives the
/// value written.
pub proof fn lemma_load_store64(mem: Map<u64, u8>, a: u64, val: i64)
    requires
        a <= u64::MAX - 7,
    ensures
        spec_load64(spec_store64(mem, a, val), a) == val,
{
    let m2 = spec_store64(mem, a, val);
    let v = val as u64;
    assert(spec_load8(m2, a) == (v & 0xff) as u8);
    assert(spec_load8(m2, (a + 1) as u64) == ((v >> 8u64) & 0xff) as u8);
    assert(spec_load8(m2, (a + 2) as u64) == ((v >> 16u64) & 0xff) as u8);
    assert(spec_load8(m2, (a + 3) as u64) == ((v >> 24u64) & 0xff) as u8);
    assert(spec_load8(m2, (a + 4) as u64) == ((v >> 32u64) & 0xff) as u8);
    assert(spec_load8(m2, (a + 5) as u64) == ((v >> 40u64) & 0xff) as u8);
    assert(spec_load8(m2, (a + 6) as u64) == ((v >> 48u64) & 0xff) as u8);
    assert(spec_load8(m2, (a + 7) as u64) == ((v >> 56u64) & 0xff) as u8);
    lemma_bytes_u64(val);
}

proof fn lemma_bytes_u64(val: i64)
    by (bit_vector)
    ensures
        ((((val as u64) & 0xff) as u8 as u64) | (((((val as u64) >> 8u64) & 0xff) as u8 as u64)
            << 8u64) | (((((val as u64) >> 16u64) & 0xff) as u8 as u64) << 16u64) | (((((val
            as u64) >> 24u64) & 0xff) as u8 as u64) << 24u64) | (((((val as u64) >> 32u64) & 0xff)
            as u8 as u64) << 32u64) | (((((val as u64) >> 40u64) & 0xff) as u8 as u64) << 40u64)
            | (((((val as u64) >> 48u64) & 0xff) as u8 as u64) << 48u64) | (((((val as u64)
            >> 56u64) & 0xff) as u8 as u64) << 56u64)) as i64 == val,
{
}

/// Law: a doubleword write leaves every byte outside its eight bytes as it
/// was, so a doubleword read that does not overlap the write is unchanged.
pub proof fn lemma_load_store64_disjoint(mem: Map<u64, u8>, a: u64, b: u64, val: i64)
    requires
        a <= u64::MAX - 7,
        b <= u64::MAX - 7,
        a + 8 <= b || b + 8 <= a,
    ensures
        spec_load64(spec_store64(mem, a, val), b) == spec_load64(mem, b),
{
    let m2 = spec_store64(mem, a, val);
    assert forall|k: u64| b <= k <= b + 7 implies spec_load8(m2, k) == spec_load8(mem, k) by {}
    assert(spec_load8(m2, (b + 1) as u64) == spec_load8(mem, (b + 1) as u64));
    assert(spec_load8(m2, (b + 2) as u64) == spec_load8(mem, (b + 2) as u64));
    assert(spec_load8(m2, (b + 3) as u64) == spec_load8(mem, (b + 3) as u64));
    assert(spec_load8(m2, (b + 4) as u64) == spec_load8(mem, (b + 4) as u64));
    assert(spec_load8(m2, (b + 5) as u64) == spec_load8(mem, (b + 5) as u64));
    assert(spec_load8(m2, (b + 6) as u64) == spec_load8(mem, (b + 6) as u64));
    assert(spec_load8(m2, (b + 7) as u64) == spec_load8(mem, (b + 7) as u64));
}

proof fn lemma_exec_keeps_zero(m: Machine, i: Instr)
    requires
        m.regs.len() == 32,
        m.regs[0] == 0,
    ensures
        spec_exec(m, i) matches Some(n) ==> n.regs.len() == 32 && n.regs[0] == 0,
{
}

/// The value of register `r` of a register file: register 0 reads as zero.
pub open spec fn spec_reg_value(regs: Seq<i64>, r: u32) -> i64 {
    if r == 0 {
        0
    } else {
        regs[r as int]
    }
}

/// Law: a conditional branch leaves registers and memory alone and moves
/// the program counter by `off` exactly when its condition holds of the
/// two registers (`beq`: equal, `bne`: different, `blt`: the first less
/// than the second as signed integers), and to the next instruction
/// otherwise.
pub proof fn lemma_branches(m: Machine, rs1: u32, rs2: u32, off: i32)
    requires
        rs1 < 32,
        rs2 < 32,
        m.pc <= u64::MAX - 4,
    ensures
        spec_exec(m, Instr::Beq(rs1, rs2, off)) == Some(
            Machine {
                regs: m.regs,
                pc: if spec_reg_value(m.regs, rs1) == spec_reg_value(m.regs, rs2) {
                    m.pc.wrapping_add(off as i64 as u64)
                } else {
                    (m.pc + 4) as u64
                },
                mem: m.mem,
            },
        ),
        spec_exec(m, Instr::Bne(rs1, rs2, off)) == Some(
            Machine {
                regs: m.regs,
                pc: if spec_reg_value(m.regs, rs1) != spec_reg_value(m.regs, rs2) {
                    m.pc.wrapping_add(off as i64 as u64)
                } else {
                    (m.pc + 4) as u64
                },
                mem: m.mem,
            },
        ),
        spec_exec(m, Instr::Blt(rs1, rs2, off)) == Some(
            Machine {
                regs: m.regs,
                pc: if spec_reg_value(m.regs, rs1) < spec_reg_value(m.regs, rs2) {
                    m.pc.wrapping_add(off as i64 as u64)
                } else {
                    (m.pc + 4) as u64
                },
                mem: m.mem,
            },
        ),
{
}

/// A register file after writing `v` to register `r`; writes to register
/// 0 are dropped.
pub open spec fn spec_reg_write(regs: Seq<i64>, r: u32, v: i64) -> Seq<i64> {
    if r == 0 {
        regs
    } else {
        regs.update(r as int, v)
    }
}

/// Law: what the arithmetic, jump and memory instructions do. `addi`,
/// `add`, `sub` write the wrapping sum or difference, `lui` the immediate
/// times 4096, and step to the next instruction; `jal` and `jalr` write the
/// address of the next instruction and jump (`jalr` to the register plus
/// the immediate, with bit 0 cleared); `ld` writes the doubleword at
/// register plus offset, `sd` stores a register there; `ecall` and unknown
/// words change nothing.
pub proof fn lemma_instructions(m: Machine, rd: u32, rs1: u32, rs2: u32, imm: i32, w: u32)
    requires
        rd < 32,
        rs1 < 32,
        rs2 < 32,
        m.pc <= u64::MAX - 4,
    ensures
        ({
            let r1 = spec_reg_value(m.regs, rs1);
            let r2 = spec_reg_value(m.regs, rs2);
            let next = (m.pc + 4) as u64;
            let a = r1.wrapping_add(imm as i64) as u64;
            &&& spec_exec(m, Instr::Addi(rd, rs1, imm)) == Some(
                Machine { regs: spec_reg_write(m.regs, rd, r1.wrapping_add(imm as i64)), pc: next, mem: m.mem },
            )
            &&& spec_exec(m, Instr::Add(rd, rs1, rs2)) == Some(
                Machine { regs: spec_reg_write(m.regs, rd, r1.wrapping_add(r2)), pc: next, mem: m.mem },
            )
            &&& spec_exec(m, Instr::Sub(rd, rs1, rs2)) == Some(
                Machine { regs: spec_reg_write(m.regs, rd, r1.wrapping_sub(r2)), pc: next, mem: m.mem },
            )
            &&& spec_exec(m, Instr::Lui(rd, imm)) == Some(
                Machine { regs: spec_reg_write(m.regs, rd, ((imm as i64) * 4096) as i64), pc: next, mem: m.mem },
            )
            &&& spec_exec(m, Instr::Jal(rd, imm)) == Some(
                Machine {
                    regs: spec_reg_write(m.regs, rd, next as i64),
                    pc: m.pc.wrapping_add(imm as i64 as u64),
                    mem: m.mem,
                },
            )
            &&& spec_exec(m, Instr::Jalr(rd, rs1, imm)) == Some(
                Machine { regs: spec_reg_write(m.regs, rd, next as i64), pc: a & !1u64, mem: m.mem },
            )
            &&& a <= u64::MAX - 7 ==> spec_exec(m, Instr::Ld(rd, rs1, imm)) == Some(
                Machine { regs: spec_reg_write(m.regs, rd, spec_load64(m.mem, a)), pc: next, mem: m.mem },
            )
            &&& a <= u64::MAX - 7 ==> spec_exec(m, Instr::Sd(rs2, rs1, imm)) == Some(
                Machine { regs: m.regs, pc: next, mem: spec_store64(m.mem, a, r2) },
            )
            &&& spec_exec(m, Instr::Ecall) == Some(m)
            &&& spec_exec(m, Instr::Unknown(w)) == Some(m)
        }),
{
    assert(m.pc.wrapping_add(4) == (m.pc + 4) as u64);
}

/// Law: a run that halts stops on an `ecall` word at the program counter,
/// with register 0 still zero; a run with no fuel is out of resources.
pub proof fn lemma_halt_at_ecall(m: Machine, fuel: nat)
    requires
        m.regs.len() == 32,
        m.regs[0] == 0,
    ensures
        spec_run_from(m, fuel) matches Some(Ok(h)) ==> {
            &&& h.pc <= u64::MAX - 3
            &&& spec_decode(spec_load32(h.mem, h.pc)) == Instr::Ecall
            &&& h.regs.len() == 32
            &&& h.regs[0] == 0
        },
        spec_run_from(m, 0) == Some(Err::<Machine, HaltError>(HaltError::OutOfResources)),
    decreases fuel,
{
    if fuel > 0 && m.pc <= u64::MAX - 3 {
        let i = spec_decode(spec_load32(m.mem, m.pc));
        if !(i is Ecall) && !(i is Unknown) {
            lemma_exec_keeps_zero(m, i);
            if let Some(next) = spec_exec(m, i) {
                lemma_halt_at_ecall(next, (fuel - 1) as nat);
            }
        }
    }
}

/// Law: a run of an image from boot that halts stops on an `ecall` word,
/// with register 0 zero.
pub proof fn lemma_run_at_halts_at_ecall(code: Seq<u8>, fuel: nat, base: u64)
    ensures
        spec_run_at(code, fuel, base) matches Some(Ok(h)) ==> {
            &&& spec_decode(spec_load32(h.mem, h.pc)) == Instr::Ecall
            &&& spec_reg(h, 0) == 0
            &&& h.regs[0] == 0
        },
        spec_run_at(code, 0, base) == Some(Err::<Machine, HaltError>(HaltError::OutOfResources)),
{
    lemma_halt_at_ecall(spec_boot(code, base), fuel);
}

/// Law: a run that stopped within `fuel` steps stops the same way with any
/// more fuel.
pub proof fn lemma_run_from_fuel_monotone(m: Machine, fuel: nat, more: nat)
    requires
        spec_run_from(m, fuel) is Some,
        !(spec_run_from(m, fuel) == Some(Err::<Machine, HaltError>(HaltError::OutOfResources))),
    ensures
        spec_run_from(m, fuel + more) == spec_run_from(m, fuel),
    decreases fuel,
{
    if fuel > 0 && m.pc <= u64::MAX - 3 {
        match spec_decode(spec_load32(m.mem, m.pc)) {
            Instr::Ecall => {},
            Instr::Unknown(_) => {},
            i => {
                if let Some(next) = spec_exec(m, i) {
                    lemma_run_from_fuel_monotone(next, (fuel - 1) as nat, more);
                    assert((fuel + more - 1) as nat == ((fuel - 1) as nat + more) as nat);
                }
            },
        }
    }
}

proof fn lemma_word_from_bytes(w: u32)
    by (bit_vector)
    ensures
        ((w & 0xff) as u8 as u32) | ((((w >> 8u32) & 0xff) as u8 as u32) << 8u32) | ((((w
            >> 16u32) & 0xff) as u8 as u32) << 16u32) | ((((w >> 24u32) & 0xff) as u8 as u32)
            << 24u32) == w,
{
}

/// Law: fetching the word at instruction `k` of an image loaded at `base`
/// and decoding it gives back instruction `k`, for every instruction whose
/// immediate fits its format and whose registers are in range (every
/// variant but `Unknown`).
pub proof fn lemma_fetch_assembled(code: Seq<Instr>, k: int, base: u64)
    requires
        0 <= k < code.len(),
        base + 4 * code.len() <= u64::MAX + 1,
        spec_encodable(code[k]),
        spec_regs_valid(code[k]),
        !(code[k] is Unknown),
    ensures
        spec_decode(spec_load32(spec_boot(spec_assemble(code), base).mem, (base + 4 * k) as u64))
            == code[k],
{
    let image = spec_assemble(code);
    lemma_assemble_len(code);
    let mem = spec_boot(image, base).mem;
    let a = (base + 4 * k) as u64;
    let w = spec_encode(code[k]);
    lemma_assemble_index(code, k, 0);
    lemma_assemble_index(code, k, 1);
    lemma_assemble_index(code, k, 2);
    lemma_assemble_index(code, k, 3);
    assert(spec_load8(mem, a) == (w & 0xff) as u8);
    assert(spec_load8(mem, (a + 1) as u64) == ((w >> 8u32) & 0xff) as u8);
    assert(spec_load8(mem, (a + 2) as u64) == ((w >> 16u32) & 0xff) as u8);
    assert(spec_load8(mem, (a + 3) as u64) == ((w >> 24u32) & 0xff) as u8);
    lemma_word_from_bytes(w);
    assert(spec_load32(mem, a) == w);
    lemma_decode_encode(code[k]);
}

} // verus!
