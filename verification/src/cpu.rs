//! The interpreter core: machine state (program counter, stack, registers,
//! index pointer, timers), instruction decode, and verified execution
//! semantics for every instruction family.
use vstd::prelude::*;

use vstd::arithmetic::div_mod::{
    lemma_mod_add_multiples_vanish,
    lemma_mod_bound,
    lemma_mod_mod,
    lemma_mod_sub_multiples_vanish,
    lemma_small_mod,
};

use crate::display::{draw_collision, draw_grid, Display};
use crate::memory::{Memory, FONT_ADDRESS, RAM_SIZE};
use crate::{Chip8Error, StepOutcome};

verus! {

broadcast use vstd::array::group_array_axioms;

/// The documented points of behavioral divergence between implementations of
/// this machine, each independently toggleable.
#[derive(Clone, Copy, PartialEq, Eq, Structural, Debug)]
pub struct QuirkConfig {
    /// Shift instructions first copy the operand register into the
    /// destination (copy-then-shift) instead of shifting in place.
    pub shift_copies_operand: bool,
    /// Jump-with-offset adds the register selected by the instruction's
    /// second nibble instead of register 0.
    pub jump_uses_operand_register: bool,
    /// Bulk register store/load leaves the index pointer advanced past the
    /// transferred range.
    pub index_advances_on_bulk_transfer: bool,
}

impl Default for QuirkConfig {
    /// The classic interpreter's behavior: copy-then-shift, jump offset
    /// from register 0, index advances on bulk transfer.
    fn default() -> (c: QuirkConfig)
        ensures
            c.shift_copies_operand,
            !c.jump_uses_operand_register,
            c.index_advances_on_bulk_transfer,
    {
        QuirkConfig {
            shift_copies_operand: true,
            jump_uses_operand_register: false,
            index_advances_on_bulk_transfer: true,
        }
    }
}

/// One decoded 16-bit instruction. Operand fields are the instruction's
/// 4-bit register selectors, 8-bit immediates, and 12-bit addresses.
#[derive(Clone, Copy, PartialEq, Eq, Structural, Debug)]
pub enum Instruction {
    ClearScreen,
    Return,
    Jump(u16),
    Call(u16),
    SkipEqImm(u8, u8),
    SkipNeImm(u8, u8),
    SkipEqReg(u8, u8),
    SkipNeReg(u8, u8),
    LoadImm(u8, u8),
    AddImm(u8, u8),
    CopyReg(u8, u8),
    OrReg(u8, u8),
    AndReg(u8, u8),
    XorReg(u8, u8),
    AddReg(u8, u8),
    SubReg(u8, u8),
    ShiftRight(u8, u8),
    SubRev(u8, u8),
    ShiftLeft(u8, u8),
    SetIndex(u16),
    JumpOffset(u16, u8),
    RandomMask(u8, u8),
    DrawSprite(u8, u8, u8),
    SkipKeyPressed(u8),
    SkipKeyNotPressed(u8),
    ReadDelay(u8),
    WaitKey(u8),
    SetDelay(u8),
    SetSound(u8),
    AddIndex(u8),
    LoadFontChar(u8),
    StoreBcd(u8),
    StoreRegs(u8),
    LoadRegs(u8),
    Unknown(u16),
}

/// Structural bounds that decoding guarantees: register selectors are 4-bit,
/// addresses 12-bit, the sprite height a nibble.
pub open spec fn instr_wf(ins: Instruction) -> bool {
    match ins {
        Instruction::ClearScreen => true,
        Instruction::Return => true,
        Instruction::Jump(a) => a < 4096,
        Instruction::Call(a) => a < 4096,
        Instruction::SkipEqImm(x, _) => x < 16,
        Instruction::SkipNeImm(x, _) => x < 16,
        Instruction::SkipEqReg(x, y) => x < 16 && y < 16,
        Instruction::SkipNeReg(x, y) => x < 16 && y < 16,
        Instruction::LoadImm(x, _) => x < 16,
        Instruction::AddImm(x, _) => x < 16,
        Instruction::CopyReg(x, y) => x < 16 && y < 16,
        Instruction::OrReg(x, y) => x < 16 && y < 16,
        Instruction::AndReg(x, y) => x < 16 && y < 16,
        Instruction::XorReg(x, y) => x < 16 && y < 16,
        Instruction::AddReg(x, y) => x < 16 && y < 16,
        Instruction::SubReg(x, y) => x < 16 && y < 16,
        Instruction::ShiftRight(x, y) => x < 16 && y < 16,
        Instruction::SubRev(x, y) => x < 16 && y < 16,
        Instruction::ShiftLeft(x, y) => x < 16 && y < 16,
        Instruction::SetIndex(a) => a < 4096,
        Instruction::JumpOffset(a, x) => a < 4096 && x < 16,
        Instruction::RandomMask(x, _) => x < 16,
        Instruction::DrawSprite(x, y, n) => x < 16 && y < 16 && n < 16,
        Instruction::SkipKeyPressed(x) => x < 16,
        Instruction::SkipKeyNotPressed(x) => x < 16,
        Instruction::ReadDelay(x) => x < 16,
        Instruction::WaitKey(x) => x < 16,
        Instruction::SetDelay(x) => x < 16,
        Instruction::SetSound(x) => x < 16,
        Instruction::AddIndex(x) => x < 16,
        Instruction::LoadFontChar(x) => x < 16,
        Instruction::StoreBcd(x) => x < 16,
        Instruction::StoreRegs(x) => x < 16,
        Instruction::LoadRegs(x) => x < 16,
        Instruction::Unknown(_) => true,
    }
}

/// How a 16-bit opcode splits into an instruction: the first nibble selects
/// the family, the rest select the sub-operation and operands.
pub open spec fn spec_decode(op: u16) -> Instruction {
    let x = ((op >> 8) & 0xF) as u8;
    let yv = ((op >> 4) & 0xF) as u8;
    let n = (op & 0xF) as u8;
    let nn = (op & 0xFF) as u8;
    let nnn = op & 0xFFF;
    let family = op >> 12;
    if op == 0x00E0 {
        Instruction::ClearScreen
    } else if op == 0x00EE {
        Instruction::Return
    } else if family == 1 {
        Instruction::Jump(nnn)
    } else if family == 2 {
        Instruction::Call(nnn)
    } else if family == 3 {
        Instruction::SkipEqImm(x, nn)
    } else if family == 4 {
        Instruction::SkipNeImm(x, nn)
    } else if family == 5 && n == 0 {
        Instruction::SkipEqReg(x, yv)
    } else if family == 6 {
        Instruction::LoadImm(x, nn)
    } else if family == 7 {
        Instruction::AddImm(x, nn)
    } else if family == 8 && n == 0 {
        Instruction::CopyReg(x, yv)
    } else if family == 8 && n == 1 {
        Instruction::OrReg(x, yv)
    } else if family == 8 && n == 2 {
        Instruction::AndReg(x, yv)
    } else if family == 8 && n == 3 {
        Instruction::XorReg(x, yv)
    } else if family == 8 && n == 4 {
        Instruction::AddReg(x, yv)
    } else if family == 8 && n == 5 {
        Instruction::SubReg(x, yv)
    } else if family == 8 && n == 6 {
        Instruction::ShiftRight(x, yv)
    } else if family == 8 && n == 7 {
        Instruction::SubRev(x, yv)
    } else if family == 8 && n == 0xE {
        Instruction::ShiftLeft(x, yv)
    } else if family == 9 && n == 0 {
        Instruction::SkipNeReg(x, yv)
    } else if family == 0xA {
        Instruction::SetIndex(nnn)
    } else if family == 0xB {
        Instruction::JumpOffset(nnn, x)
    } else if family == 0xC {
        Instruction::RandomMask(x, nn)
    } else if family == 0xD {
        Instruction::DrawSprite(x, yv, n)
    } else if family == 0xE && nn == 0x9E {
        Instruction::SkipKeyPressed(x)
    } else if family == 0xE && nn == 0xA1 {
        Instruction::SkipKeyNotPressed(x)
    } else if family == 0xF && nn == 0x07 {
        Instruction::ReadDelay(x)
    } else if family == 0xF && nn == 0x0A {
        Instruction::WaitKey(x)
    } else if family == 0xF && nn == 0x15 {
        Instruction::SetDelay(x)
    } else if family == 0xF && nn == 0x18 {
        Instruction::SetSound(x)
    } else if family == 0xF && nn == 0x1E {
        Instruction::AddIndex(x)
    } else if family == 0xF && nn == 0x29 {
        Instruction::LoadFontChar(x)
    } else if family == 0xF && nn == 0x33 {
        Instruction::StoreBcd(x)
    } else if family == 0xF && nn == 0x55 {
        Instruction::StoreRegs(x)
    } else if family == 0xF && nn == 0x65 {
        Instruction::LoadRegs(x)
    } else {
        Instruction::Unknown(op)
    }
}

/// Every decoded instruction satisfies the structural bounds.
pub proof fn lemma_decode_wf(op: u16)
    ensures
        instr_wf(spec_decode(op)),
{
    assert(((op >> 8) & 0xF) < 16) by (bit_vector);
    assert(((op >> 4) & 0xF) < 16) by (bit_vector);
    assert((op & 0xF) < 16) by (bit_vector);
    assert((op & 0xFFF) < 4096) by (bit_vector);
}

/// Split a raw opcode into its decoded instruction.
pub fn decode_opcode(op: u16) -> (ins: Instruction)
    ensures
        ins == spec_decode(op),
{
    let x: u8 = ((op >> 8) & 0xF) as u8;
    let yv: u8 = ((op >> 4) & 0xF) as u8;
    let n: u8 = (op & 0xF) as u8;
    let nn: u8 = (op & 0xFF) as u8;
    let nnn: u16 = op & 0xFFF;
    let family: u16 = op >> 12;
    if op == 0x00E0 {
        Instruction::ClearScreen
    } else if op == 0x00EE {
        Instruction::Return
    } else if family == 1 {
        Instruction::Jump(nnn)
    } else if family == 2 {
        Instruction::Call(nnn)
    } else if family == 3 {
        Instruction::SkipEqImm(x, nn)
    } else if family == 4 {
        Instruction::SkipNeImm(x, nn)
    } else if family == 5 && n == 0 {
        Instruction::SkipEqReg(x, yv)
    } else if family == 6 {
        Instruction::LoadImm(x, nn)
    } else if family == 7 {
        Instruction::AddImm(x, nn)
    } else if family == 8 && n == 0 {
        Instruction::CopyReg(x, yv)
    } else if family == 8 && n == 1 {
        Instruction::OrReg(x, yv)
    } else if family == 8 && n == 2 {
        Instruction::AndReg(x, yv)
    } else if family == 8 && n == 3 {
        Instruction::XorReg(x, yv)
    } else if family == 8 && n == 4 {
        Instruction::AddReg(x, yv)
    } else if family == 8 && n == 5 {
        Instruction::SubReg(x, yv)
    } else if family == 8 && n == 6 {
        Instruction::ShiftRight(x, yv)
    } else if family == 8 && n == 7 {
        Instruction::SubRev(x, yv)
    } else if family == 8 && n == 0xE {
        Instruction::ShiftLeft(x, yv)
    } else if family == 9 && n == 0 {
        Instruction::SkipNeReg(x, yv)
    } else if family == 0xA {
        Instruction::SetIndex(nnn)
    } else if family == 0xB {
        Instruction::JumpOffset(nnn, x)
    } else if family == 0xC {
        Instruction::RandomMask(x, nn)
    } else if family == 0xD {
        Instruction::DrawSprite(x, yv, n)
    } else if family == 0xE && nn == 0x9E {
        Instruction::SkipKeyPressed(x)
    } else if family == 0xE && nn == 0xA1 {
        Instruction::SkipKeyNotPressed(x)
    } else if family == 0xF && nn == 0x07 {
        Instruction::ReadDelay(x)
    } else if family == 0xF && nn == 0x0A {
        Instruction::WaitKey(x)
    } else if family == 0xF && nn == 0x15 {
        Instruction::SetDelay(x)
    } else if family == 0xF && nn == 0x18 {
        Instruction::SetSound(x)
    } else if family == 0xF && nn == 0x1E {
        Instruction::AddIndex(x)
    } else if family == 0xF && nn == 0x29 {
        Instruction::LoadFontChar(x)
    } else if family == 0xF && nn == 0x33 {
        Instruction::StoreBcd(x)
    } else if family == 0xF && nn == 0x55 {
        Instruction::StoreRegs(x)
    } else if family == 0xF && nn == 0x65 {
        Instruction::LoadRegs(x)
    } else {
        Instruction::Unknown(op)
    }
}

/// `x` wrapped into a 16-bit value.
pub open spec fn wrap16(x: int) -> u16 {
    (x % 0x10000) as u16
}

/// For small `x`, wrapping is either the identity or one subtraction.
pub proof fn lemma_wrap16(x: int)
    requires
        0 <= x < 0x20000,
    ensures
        wrap16(x) == if x >= 0x10000 {
            x - 0x10000
        } else {
            x
        },
{
    if x >= 0x10000 {
        lemma_mod_sub_multiples_vanish(x, 0x10000);
        lemma_small_mod((x - 0x10000) as nat, 0x10000 as nat);
    } else {
        lemma_small_mod(x as nat, 0x10000 as nat);
    }
}

/// The lowest-indexed pressed key at or after position `k`, if any.
pub open spec fn first_key_from(keys: Seq<bool>, k: int) -> Option<u8>
    decreases 16 - k,
{
    if k < 0 || k >= 16 {
        None
    } else if keys[k] {
        Some(k as u8)
    } else {
        first_key_from(keys, k + 1)
    }
}

/// The lowest-indexed pressed key, if any.
pub open spec fn first_key(keys: Seq<bool>) -> Option<u8> {
    first_key_from(keys, 0)
}

/// What `first_key` returns really is the lowest pressed index.
pub proof fn lemma_first_key(keys: Seq<bool>, k: int)
    requires
        0 <= k <= 16,
        keys.len() == 16,
    ensures
        first_key_from(keys, k) is None <==> (forall|j: int| k <= j < 16 ==> !keys[j]),
        first_key_from(keys, k) matches Some(w) ==> k <= w < 16 && keys[w as int] && (forall|j: int|
            k <= j < w ==> !keys[j]),
    decreases 16 - k,
{
    if k < 16 {
        lemma_first_key(keys, k + 1);
    }
}

/// The bytes written by a bulk register store: registers `0 .. cnt` placed at
/// consecutive addresses from `i`, each address reduced modulo the capacity.
pub open spec fn store_regs_spec(mem: Seq<u8>, v: Seq<u8>, i: int, cnt: int) -> Seq<u8>
    decreases cnt,
{
    if cnt <= 0 {
        mem
    } else {
        store_regs_spec(mem, v, i, cnt - 1).update((i + cnt - 1) % 4096, v[cnt - 1])
    }
}

/// The mathematical state of the whole machine: interpreter registers,
/// timers, memory image and pixel grid.
#[verifier::ext_equal]
pub ghost struct MachineModel {
    pub pc: u16,
    pub sp: u8,
    pub stack: Seq<u16>,
    pub v: Seq<u8>,
    pub i: u16,
    pub delay: u8,
    pub sound: u8,
    pub mem: Seq<u8>,
    pub grid: Seq<bool>,
}

impl MachineModel {
    /// Structural bounds of a machine state.
    pub open spec fn wf(self) -> bool {
        &&& self.sp <= 16
        &&& self.stack.len() == 16
        &&& self.v.len() == 16
        &&& self.mem.len() == 4096
        &&& self.grid.len() == 2048
    }
}

/// The effect of one instruction on the machine state, and what the cycle
/// reports. `keys` is the driver-supplied key vector, `r` the byte drawn for
/// the random instruction (ignored by every other instruction), `cfg` the
/// quirk configuration.
pub open spec fn spec_step(
    m: MachineModel,
    ins: Instruction,
    keys: Seq<bool>,
    r: u8,
    cfg: QuirkConfig,
) -> (MachineModel, StepOutcome) {
    let next = MachineModel { pc: wrap16(m.pc + 2), ..m };
    match ins {
        Instruction::ClearScreen => (
            MachineModel { grid: Seq::new(2048, |idx: int| false), ..next },
            StepOutcome::Advanced,
        ),
        Instruction::Return => if m.sp > 0 {
            (
                MachineModel {
                    pc: wrap16(m.stack[m.sp as int - 1] + 2),
                    sp: (m.sp - 1) as u8,
                    ..m
                },
                StepOutcome::Advanced,
            )
        } else {
            (next, StepOutcome::Faulted(Chip8Error::StackUnderflow))
        },
        Instruction::Jump(a) => (MachineModel { pc: a, ..m }, StepOutcome::Advanced),
        Instruction::Call(a) => if m.sp < 16 {
            (
                MachineModel {
                    stack: m.stack.update(m.sp as int, m.pc),
                    sp: (m.sp + 1) as u8,
                    pc: a,
                    ..m
                },
                StepOutcome::Advanced,
            )
        } else {
            (next, StepOutcome::Faulted(Chip8Error::StackOverflow))
        },
        Instruction::SkipEqImm(x, nn) => if m.v[x as int] == nn {
            (MachineModel { pc: wrap16(m.pc + 4), ..m }, StepOutcome::Advanced)
        } else {
            (next, StepOutcome::Advanced)
        },
        Instruction::SkipNeImm(x, nn) => if m.v[x as int] != nn {
            (MachineModel { pc: wrap16(m.pc + 4), ..m }, StepOutcome::Advanced)
        } else {
            (next, StepOutcome::Advanced)
        },
        Instruction::SkipEqReg(x, y) => if m.v[x as int] == m.v[y as int] {
            (MachineModel { pc: wrap16(m.pc + 4), ..m }, StepOutcome::Advanced)
        } else {
            (next, StepOutcome::Advanced)
        },
        Instruction::SkipNeReg(x, y) => if m.v[x as int] != m.v[y as int] {
            (MachineModel { pc: wrap16(m.pc + 4), ..m }, StepOutcome::Advanced)
        } else {
            (next, StepOutcome::Advanced)
        },
        Instruction::LoadImm(x, nn) => (
            MachineModel { v: m.v.update(x as int, nn), ..next },
            StepOutcome::Advanced,
        ),
        Instruction::AddImm(x, nn) => (
            MachineModel {
                v: m.v.update(x as int, ((m.v[x as int] + nn) % 256) as u8),
                ..next
            },
            StepOutcome::Advanced,
        ),
        Instruction::CopyReg(x, y) => (
            MachineModel { v: m.v.update(x as int, m.v[y as int]), ..next },
            StepOutcome::Advanced,
        ),
        Instruction::OrReg(x, y) => {
            let v1 = m.v.update(15, 0u8);
            (
                MachineModel { v: v1.update(x as int, v1[x as int] | v1[y as int]), ..next },
                StepOutcome::Advanced,
            )
        },
        Instruction::AndReg(x, y) => {
            let v1 = m.v.update(15, 0u8);
            (
                MachineModel { v: v1.update(x as int, v1[x as int] & v1[y as int]), ..next },
                StepOutcome::Advanced,
            )
        },
        Instruction::XorReg(x, y) => {
            let v1 = m.v.update(15, 0u8);
            (
                MachineModel { v: v1.update(x as int, v1[x as int] ^ v1[y as int]), ..next },
                StepOutcome::Advanced,
            )
        },
        Instruction::AddReg(x, y) => {
            let sum = m.v[x as int] + m.v[y as int];
            let v1 = m.v.update(x as int, (sum % 256) as u8);
            let v2 = v1.update(15, if sum > 255 { 1u8 } else { 0u8 });
            (MachineModel { v: v2, ..next }, StepOutcome::Advanced)
        },
        Instruction::SubReg(x, y) => {
            let no_borrow = m.v[x as int] >= m.v[y as int];
            let v1 = m.v.update(x as int, ((m.v[x as int] - m.v[y as int]) % 256) as u8);
            let v2 = v1.update(15, if no_borrow { 1u8 } else { 0u8 });
            (MachineModel { v: v2, ..next }, StepOutcome::Advanced)
        },
        Instruction::ShiftRight(x, y) => {
            let v1 = if cfg.shift_copies_operand {
                m.v.update(x as int, m.v[y as int])
            } else {
                m.v
            };
            let bit = (v1[x as int] % 2) as u8;
            let v2 = v1.update(x as int, (v1[x as int] / 2) as u8);
            let v3 = v2.update(15, bit);
            (MachineModel { v: v3, ..next }, StepOutcome::Advanced)
        },
        Instruction::SubRev(x, y) => {
            let no_borrow = m.v[y as int] >= m.v[x as int];
            let v1 = m.v.update(x as int, ((m.v[y as int] - m.v[x as int]) % 256) as u8);
            let v2 = v1.update(15, if no_borrow { 1u8 } else { 0u8 });
            (MachineModel { v: v2, ..next }, StepOutcome::Advanced)
        },
        Instruction::ShiftLeft(x, y) => {
            let v1 = if cfg.shift_copies_operand {
                m.v.update(x as int, m.v[y as int])
            } else {
                m.v
            };
            let bit = (v1[x as int] / 128) as u8;
            let v2 = v1.update(x as int, ((v1[x as int] * 2) % 256) as u8);
            let v3 = v2.update(15, bit);
            (MachineModel { v: v3, ..next }, StepOutcome::Advanced)
        },
        Instruction::SetIndex(a) => (MachineModel { i: a, ..next }, StepOutcome::Advanced),
        Instruction::JumpOffset(a, x) => {
            let off = if cfg.jump_uses_operand_register {
                m.v[x as int]
            } else {
                m.v[0]
            };
            (MachineModel { pc: wrap16(a + off), ..m }, StepOutcome::Advanced)
        },
        Instruction::RandomMask(x, nn) => (
            MachineModel { v: m.v.update(x as int, r & nn), ..next },
            StepOutcome::Advanced,
        ),
        Instruction::DrawSprite(x, y, n) => {
            let sprite = Seq::new(n as nat, |k: int| m.mem[(m.i + k) % 4096]);
            let px = m.v[x as int] as int;
            let py = m.v[y as int] as int;
            let coll = draw_collision(m.grid, sprite, px, py);
            (
                MachineModel {
                    grid: draw_grid(m.grid, sprite, px, py),
                    v: m.v.update(15, if coll { 1u8 } else { 0u8 }),
                    ..next
                },
                StepOutcome::Advanced,
            )
        },
        Instruction::SkipKeyPressed(x) => if keys[m.v[x as int] as int % 16] {
            (MachineModel { pc: wrap16(m.pc + 4), ..m }, StepOutcome::Advanced)
        } else {
            (next, StepOutcome::Advanced)
        },
        Instruction::SkipKeyNotPressed(x) => if !keys[m.v[x as int] as int % 16] {
            (MachineModel { pc: wrap16(m.pc + 4), ..m }, StepOutcome::Advanced)
        } else {
            (next, StepOutcome::Advanced)
        },
        Instruction::ReadDelay(x) => (
            MachineModel { v: m.v.update(x as int, m.delay), ..next },
            StepOutcome::Advanced,
        ),
        Instruction::WaitKey(x) => match first_key(keys) {
            Some(k) => (
                MachineModel { v: m.v.update(x as int, k), ..next },
                StepOutcome::Advanced,
            ),
            None => (m, StepOutcome::Waiting),
        },
        Instruction::SetDelay(x) => (
            MachineModel { delay: m.v[x as int], ..next },
            StepOutcome::Advanced,
        ),
        Instruction::SetSound(x) => (
            MachineModel { sound: m.v[x as int], ..next },
            StepOutcome::Advanced,
        ),
        Instruction::AddIndex(x) => (
            MachineModel { i: wrap16(m.i + m.v[x as int]), ..next },
            StepOutcome::Advanced,
        ),
        Instruction::LoadFontChar(x) => (
            MachineModel { i: (FONT_ADDRESS + 5 * (m.v[x as int] as int)) as u16, ..next },
            StepOutcome::Advanced,
        ),
        Instruction::StoreBcd(x) => {
            let val = m.v[x as int];
            let mem1 = m.mem.update(m.i as int % 4096, (val as int / 100) as u8);
            let mem2 = mem1.update((m.i + 1) % 4096, ((val as int / 10) % 10) as u8);
            let mem3 = mem2.update((m.i + 2) % 4096, (val as int % 10) as u8);
            (MachineModel { mem: mem3, ..next }, StepOutcome::Advanced)
        },
        Instruction::StoreRegs(x) => (
            MachineModel {
                mem: store_regs_spec(m.mem, m.v, m.i as int, x as int + 1),
                i: if cfg.index_advances_on_bulk_transfer {
                    wrap16(m.i + x + 1)
                } else {
                    m.i
                },
                ..next
            },
            StepOutcome::Advanced,
        ),
        Instruction::LoadRegs(x) => (
            MachineModel {
                v: Seq::new(
                    16,
                    |k: int|
                        if k <= x as int {
                            m.mem[(m.i + k) % 4096]
                        } else {
                            m.v[k]
                        },
                ),
                i: if cfg.index_advances_on_bulk_transfer {
                    wrap16(m.i + x + 1)
                } else {
                    m.i
                },
                ..next
            },
            StepOutcome::Advanced,
        ),
        Instruction::Unknown(_) => (next, StepOutcome::Faulted(Chip8Error::UnknownOpcode)),
    }
}

/// The 16-bit opcode fetched at `pc`: two consecutive memory bytes, high
/// byte first, addresses reduced modulo the capacity.
pub open spec fn spec_fetch(mem: Seq<u8>, pc: u16) -> u16 {
    (mem[pc as int % 4096] * 256 + mem[(pc + 1) % 4096]) as u16
}

/// Relies on rand::random::<u8>: a uniformly distributed random byte.
/// Nothing is promised of the value; callers state what holds of every
/// outcome.
#[verifier::external_body]
fn random_byte() -> u8 {
    rand::random::<u8>()
}

/// The machine state the interpreter owns: program counter, stack pointer and
/// stack, the 16 general registers (register 15 doubles as the flags
/// register), the index pointer, and the two countdown timers.
pub struct CPU {
    pub pc: u16,
    pub sp: u8,
    pub stack: Vec<u16>,
    pub v: Vec<u8>,
    pub i: u16,
    pub delay_timer: u8,
    pub sound_timer: u8,
    pub config: QuirkConfig,
}

/// The mathematical state of a machine assembled from its three components.
pub open spec fn model(cpu: CPU, mem: Memory, disp: Display) -> MachineModel {
    MachineModel {
        pc: cpu.pc,
        sp: cpu.sp,
        stack: cpu.stack@,
        v: cpu.v@,
        i: cpu.i,
        delay: cpu.delay_timer,
        sound: cpu.sound_timer,
        mem: mem.data@,
        grid: disp.pixels@,
    }
}

impl CPU {
    /// Stack depth stays within the 16 entries; register and stack storage
    /// have their fixed sizes.
    pub open spec fn wf(self) -> bool {
        &&& self.sp <= 16
        &&& self.stack@.len() == 16
        &&& self.v@.len() == 16
    }

    /// A machine at reset: the program counter seeded, everything else zero,
    /// with the default quirk configuration.
    pub fn new(program_counter: u16) -> (cpu: CPU)
        ensures
            cpu.wf(),
            cpu.pc == program_counter,
            cpu.sp == 0u8,
            cpu.i == 0u16,
            cpu.delay_timer == 0u8,
            cpu.sound_timer == 0u8,
            forall|k: int| 0 <= k < 16 ==> cpu.stack@[k] == 0u16,
            forall|k: int| 0 <= k < 16 ==> cpu.v@[k] == 0u8,
            cpu.config.shift_copies_operand,
            !cpu.config.jump_uses_operand_register,
            cpu.config.index_advances_on_bulk_transfer,
    {
        let mut stack: Vec<u16> = Vec::new();
        let mut v: Vec<u8> = Vec::new();
        let mut k: usize = 0;
        while k < 16
            invariant
                k == stack@.len(),
                k == v@.len(),
                k <= 16,
                forall|j: int| 0 <= j < k ==> stack@[j] == 0u16,
                forall|j: int| 0 <= j < k ==> v@[j] == 0u8,
            decreases 16 - k,
        {
            stack.push(0);
            v.push(0);
            k = k + 1;
        }
        CPU {
            pc: program_counter,
            sp: 0,
            stack,
            v,
            i: 0,
            delay_timer: 0,
            sound_timer: 0,
            config: QuirkConfig::default(),
        }
    }

    /// Like `new`, but with an explicit quirk configuration.
    pub fn new_with_config(program_counter: u16, config: QuirkConfig) -> (cpu: CPU)
        ensures
            cpu.wf(),
            cpu.pc == program_counter,
            cpu.sp == 0u8,
            cpu.i == 0u16,
            cpu.delay_timer == 0u8,
            cpu.sound_timer == 0u8,
            forall|k: int| 0 <= k < 16 ==> cpu.stack@[k] == 0u16,
            forall|k: int| 0 <= k < 16 ==> cpu.v@[k] == 0u8,
            cpu.config == config,
    {
        let mut cpu = CPU::new(program_counter);
        cpu.config = config;
        cpu
    }

    /// Overwrite the program counter.
    pub fn _set_program_counter(&mut self, pc: u16)
        ensures
            *final(self) == (CPU { pc, ..*old(self) }),
    {
        self.pc = pc;
    }

    /// One tick of the autonomous 60 Hz timer process: each counter that is
    /// above zero goes down by exactly one; a counter at zero stays at zero.
    pub fn tick_timers(&mut self)
        ensures
            final(self).delay_timer == if old(self).delay_timer > 0 {
                old(self).delay_timer - 1
            } else {
                0
            },
            final(self).sound_timer == if old(self).sound_timer > 0 {
                old(self).sound_timer - 1
            } else {
                0
            },
            *final(self) == (CPU {
                delay_timer: final(self).delay_timer,
                sound_timer: final(self).sound_timer,
                ..*old(self)
            }),
    {
        if self.delay_timer > 0 {
            self.delay_timer = self.delay_timer - 1;
        }
        if self.sound_timer > 0 {
            self.sound_timer = self.sound_timer - 1;
        }
    }

    /// The generic post-instruction advance: one instruction width.
    fn advance_pc(&mut self)
        ensures
            *final(self) == (CPU { pc: wrap16(old(self).pc + 2), ..*old(self) }),
    {
        proof {
            lemma_wrap16(self.pc + 2);
        }
        self.pc = self.pc.wrapping_add(2);
    }

    /// Skip the next instruction: two instruction widths.
    fn skip_pc(&mut self)
        ensures
            *final(self) == (CPU { pc: wrap16(old(self).pc + 4), ..*old(self) }),
    {
        proof {
            lemma_wrap16(self.pc + 4);
        }
        self.pc = self.pc.wrapping_add(4);
    }
}

/// A 16-bit wrap followed by the memory's modulo addressing reduces the same
/// way as a single modulo, because the capacity divides 2^16.
proof fn lemma_wrap16_mod4096(x: int)
    requires
        0 <= x,
    ensures
        wrap16(x) as int % 4096 == x % 4096,
{
    lemma_mod_bound(x, 0x10000);
    lemma_mod_mod(x, 4096, 16);
    assert(4096 * 16 == 0x10000);
}

/// Wrapped 8-bit subtraction written without the modulo.
proof fn lemma_wrap_diff8(a: int, b: int)
    requires
        0 <= a < 256,
        0 <= b < 256,
    ensures
        (a - b) % 256 == if a >= b {
            a - b
        } else {
            a - b + 256
        },
{
    if a >= b {
        lemma_small_mod((a - b) as nat, 256 as nat);
    } else {
        lemma_mod_add_multiples_vanish(a - b, 256);
        lemma_small_mod((a - b + 256) as nat, 256 as nat);
    }
}

impl CPU {
    /// Execute one decoded instruction against memory, display, and the
    /// driver-supplied key vector. `rand_byte` is the byte the random
    /// instruction masks; every other instruction ignores it. The whole
    /// effect, and what the cycle reports, is `spec_step` of the prior state.
    #[verifier::rlimit(100)]
    pub fn execute(
        &mut self,
        ins: Instruction,
        memory: &mut Memory,
        display: &mut Display,
        keys: &[bool; 16],
        rand_byte: u8,
    ) -> (o: StepOutcome)
        requires
            old(self).wf(),
            old(memory).wf(),
            old(display).wf(),
            instr_wf(ins),
        ensures
            final(self).wf(),
            final(memory).wf(),
            final(display).wf(),
            final(self).config == old(self).config,
            ({
                let (m2, out) = spec_step(
                    model(*old(self), *old(memory), *old(display)),
                    ins,
                    keys@,
                    rand_byte,
                    old(self).config,
                );
                model(*final(self), *final(memory), *final(display)) == m2 && o == out
            }),
    {
        let ghost m0 = model(*self, *memory, *display);
        let ghost cfg = self.config;
        let ghost kseq = keys@;
        match ins {
            Instruction::ClearScreen => {
                display.clear();
                self.advance_pc();
                proof {
                    assert(display.pixels@ =~= Seq::new(2048, |idx: int| false));
                    assert(model(*self, *memory, *display) =~= spec_step(
                        m0,
                        ins,
                        kseq,
                        rand_byte,
                        cfg,
                    ).0);
                }
                StepOutcome::Advanced
            },
            Instruction::Return => {
                if self.sp > 0 {
                    let top: u16 = self.stack[(self.sp - 1) as usize];
                    self.sp = self.sp - 1;
                    proof {
                        lemma_wrap16(top + 2);
                    }
                    self.pc = top.wrapping_add(2);
                    proof {
                        assert(model(*self, *memory, *display) =~= spec_step(
                            m0,
                            ins,
                            kseq,
                            rand_byte,
                            cfg,
                        ).0);
                    }
                    StepOutcome::Advanced
                } else {
                    self.advance_pc();
                    proof {
                        assert(model(*self, *memory, *display) =~= spec_step(
                            m0,
                            ins,
                            kseq,
                            rand_byte,
                            cfg,
                        ).0);
                    }
                    StepOutcome::Faulted(Chip8Error::StackUnderflow)
                }
            },
            Instruction::Jump(a) => {
                self.pc = a;
                proof {
                    assert(model(*self, *memory, *display) =~= spec_step(
                        m0,
                        ins,
                        kseq,
                        rand_byte,
                        cfg,
                    ).0);
                }
                StepOutcome::Advanced
            },
            Instruction::Call(a) => {
                if self.sp < 16 {
                    self.stack.set(self.sp as usize, self.pc);
                    self.sp = self.sp + 1;
                    self.pc = a;
                    proof {
                        assert(model(*self, *memory, *display) =~= spec_step(
                            m0,
                            ins,
                            kseq,
                            rand_byte,
                            cfg,
                        ).0);
                    }
                    StepOutcome::Advanced
                } else {
                    self.advance_pc();
                    proof {
                        assert(model(*self, *memory, *display) =~= spec_step(
                            m0,
                            ins,
                            kseq,
                            rand_byte,
                            cfg,
                        ).0);
                    }
                    StepOutcome::Faulted(Chip8Error::StackOverflow)
                }
            },
            Instruction::SkipEqImm(x, nn) => {
                if self.v[x as usize] == nn {
                    self.skip_pc();
                } else {
                    self.advance_pc();
                }
                proof {
                    assert(model(*self, *memory, *display) =~= spec_step(
                        m0,
                        ins,
                        kseq,
                        rand_byte,
                        cfg,
                    ).0);
                }
                StepOutcome::Advanced
            },
            Instruction::SkipNeImm(x, nn) => {
                if self.v[x as usize] != nn {
                    self.skip_pc();
                } else {
                    self.advance_pc();
                }
                proof {
                    assert(model(*self, *memory, *display) =~= spec_step(
                        m0,
                        ins,
                        kseq,
                        rand_byte,
                        cfg,
                    ).0);
                }
                StepOutcome::Advanced
            },
            Instruction::SkipEqReg(x, y) => {
                if self.v[x as usize] == self.v[y as usize] {
                    self.skip_pc();
                } else {
                    self.advance_pc();
                }
                proof {
                    assert(model(*self, *memory, *display) =~= spec_step(
                        m0,
                        ins,
                        kseq,
                        rand_byte,
                        cfg,
                    ).0);
                }
                StepOutcome::Advanced
            },
            Instruction::SkipNeReg(x, y) => {
                if self.v[x as usize] != self.v[y as usize] {
                    self.skip_pc();
                } else {
                    self.advance_pc();
                }
                proof {
                    assert(model(*self, *memory, *display) =~= spec_step(
                        m0,
                        ins,
                        kseq,
                        rand_byte,
                        cfg,
                    ).0);
                }
                StepOutcome::Advanced
            },
            Instruction::LoadImm(x, nn) => {
                self.v.set(x as usize, nn);
                self.advance_pc();
                proof {
                    assert(model(*self, *memory, *display) =~= spec_step(
                        m0,
                        ins,
                        kseq,
                        rand_byte,
                        cfg,
                    ).0);
                }
                StepOutcome::Advanced
            },
            Instruction::AddImm(x, nn) => {
                let s: u16 = self.v[x as usize] as u16 + nn as u16;
                self.v.set(x as usize, (s % 256) as u8);
                self.advance_pc();
                proof {
                    assert(model(*self, *memory, *display) =~= spec_step(
                        m0,
                        ins,
                        kseq,
                        rand_byte,
                        cfg,
                    ).0);
                }
                StepOutcome::Advanced
            },
            Instruction::CopyReg(x, y) => {
                let vy: u8 = self.v[y as usize];
                self.v.set(x as usize, vy);
                self.advance_pc();
                proof {
                    assert(model(*self, *memory, *display) =~= spec_step(
                        m0,
                        ins,
                        kseq,
                        rand_byte,
                        cfg,
                    ).0);
                }
                StepOutcome::Advanced
            },
            Instruction::OrReg(x, y) => {
                self.v.set(15, 0);
                let a: u8 = self.v[x as usize];
                let b: u8 = self.v[y as usize];
                self.v.set(x as usize, a | b);
                self.advance_pc();
                proof {
                    assert(model(*self, *memory, *display) =~= spec_step(
                        m0,
                        ins,
                        kseq,
                        rand_byte,
                        cfg,
                    ).0);
                }
                StepOutcome::Advanced
            },
            Instruction::AndReg(x, y) => {
                self.v.set(15, 0);
                let a: u8 = self.v[x as usize];
                let b: u8 = self.v[y as usize];
                self.v.set(x as usize, a & b);
                self.advance_pc();
                proof {
                    assert(model(*self, *memory, *display) =~= spec_step(
                        m0,
                        ins,
                        kseq,
                        rand_byte,
                        cfg,
                    ).0);
                }
                StepOutcome::Advanced
            },
            Instruction::XorReg(x, y) => {
                self.v.set(15, 0);
                let a: u8 = self.v[x as usize];
                let b: u8 = self.v[y as usize];
                self.v.set(x as usize, a ^ b);
                self.advance_pc();
                proof {
                    assert(model(*self, *memory, *display) =~= spec_step(
                        m0,
                        ins,
                        kseq,
                        rand_byte,
                        cfg,
                    ).0);
                }
                StepOutcome::Advanced
            },
            Instruction::AddReg(x, y) => {
                let a: u8 = self.v[x as usize];
                let b: u8 = self.v[y as usize];
                let sum: u16 = a as u16 + b as u16;
                self.v.set(x as usize, (sum % 256) as u8);
                self.v.set(15, if sum > 255 { 1 } else { 0 });
                self.advance_pc();
                proof {
                    assert(model(*self, *memory, *display) =~= spec_step(
                        m0,
                        ins,
                        kseq,
                        rand_byte,
                        cfg,
                    ).0);
                }
                StepOutcome::Advanced
            },
            Instruction::SubReg(x, y) => {
                let a: u8 = self.v[x as usize];
                let b: u8 = self.v[y as usize];
                let diff: u8 = if a >= b {
                    a - b
                } else {
                    (a as u16 + 256 - b as u16) as u8
                };
                proof {
                    lemma_wrap_diff8(a as int, b as int);
                }
                self.v.set(x as usize, diff);
                self.v.set(15, if a >= b { 1 } else { 0 });
                self.advance_pc();
                proof {
                    assert(model(*self, *memory, *display) =~= spec_step(
                        m0,
                        ins,
                        kseq,
                        rand_byte,
                        cfg,
                    ).0);
                }
                StepOutcome::Advanced
            },
            Instruction::ShiftRight(x, y) => {
                if self.config.shift_copies_operand {
                    let vy: u8 = self.v[y as usize];
                    self.v.set(x as usize, vy);
                }
                let vx: u8 = self.v[x as usize];
                self.v.set(x as usize, vx / 2);
                self.v.set(15, vx % 2);
                self.advance_pc();
                proof {
                    assert(model(*self, *memory, *display) =~= spec_step(
                        m0,
                        ins,
                        kseq,
                        rand_byte,
                        cfg,
                    ).0);
                }
                StepOutcome::Advanced
            },
            Instruction::SubRev(x, y) => {
                let a: u8 = self.v[x as usize];
                let b: u8 = self.v[y as usize];
                let diff: u8 = if b >= a {
                    b - a
                } else {
                    (b as u16 + 256 - a as u16) as u8
                };
                proof {
                    lemma_wrap_diff8(b as int, a as int);
                }
                self.v.set(x as usize, diff);
                self.v.set(15, if b >= a { 1 } else { 0 });
                self.advance_pc();
                proof {
                    assert(model(*self, *memory, *display) =~= spec_step(
                        m0,
                        ins,
                        kseq,
                        rand_byte,
                        cfg,
                    ).0);
                }
                StepOutcome::Advanced
            },
            Instruction::ShiftLeft(x, y) => {
                if self.config.shift_copies_operand {
                    let vy: u8 = self.v[y as usize];
                    self.v.set(x as usize, vy);
                }
                let vx: u8 = self.v[x as usize];
                let doubled: u16 = vx as u16 * 2;
                self.v.set(x as usize, (doubled % 256) as u8);
                self.v.set(15, vx / 128);
                self.advance_pc();
                proof {
                    assert(model(*self, *memory, *display) =~= spec_step(
                        m0,
                        ins,
                        kseq,
                        rand_byte,
                        cfg,
                    ).0);
                }
                StepOutcome::Advanced
            },
            Instruction::SetIndex(a) => {
                self.i = a;
                self.advance_pc();
                proof {
                    assert(model(*self, *memory, *display) =~= spec_step(
                        m0,
                        ins,
                        kseq,
                        rand_byte,
                        cfg,
                    ).0);
                }
                StepOutcome::Advanced
            },
            Instruction::JumpOffset(a, x) => {
                let off: u8 = if self.config.jump_uses_operand_register {
                    self.v[x as usize]
                } else {
                    self.v[0]
                };
                proof {
                    lemma_small_mod((a + off) as nat, 0x10000 as nat);
                }
                self.pc = a + off as u16;
                proof {
                    assert(model(*self, *memory, *display) =~= spec_step(
                        m0,
                        ins,
                        kseq,
                        rand_byte,
                        cfg,
                    ).0);
                }
                StepOutcome::Advanced
            },
            Instruction::RandomMask(x, nn) => {
                self.v.set(x as usize, rand_byte & nn);
                self.advance_pc();
                proof {
                    assert(model(*self, *memory, *display) =~= spec_step(
                        m0,
                        ins,
                        kseq,
                        rand_byte,
                        cfg,
                    ).0);
                }
                StepOutcome::Advanced
            },
            Instruction::DrawSprite(x, y, n) => {
                self.op_draw(memory, display, x, y, n);
                proof {
                    assert(model(*self, *memory, *display) =~= spec_step(
                        m0,
                        ins,
                        kseq,
                        rand_byte,
                        cfg,
                    ).0);
                }
                StepOutcome::Advanced
            },
            Instruction::SkipKeyPressed(x) => {
                let k: usize = (self.v[x as usize] % 16) as usize;
                if keys[k] {
                    self.skip_pc();
                } else {
                    self.advance_pc();
                }
                proof {
                    assert(model(*self, *memory, *display) =~= spec_step(
                        m0,
                        ins,
                        kseq,
                        rand_byte,
                        cfg,
                    ).0);
                }
                StepOutcome::Advanced
            },
            Instruction::SkipKeyNotPressed(x) => {
                let k: usize = (self.v[x as usize] % 16) as usize;
                if !keys[k] {
                    self.skip_pc();
                } else {
                    self.advance_pc();
                }
                proof {
                    assert(model(*self, *memory, *display) =~= spec_step(
                        m0,
                        ins,
                        kseq,
                        rand_byte,
                        cfg,
                    ).0);
                }
                StepOutcome::Advanced
            },
            Instruction::ReadDelay(x) => {
                let d: u8 = self.delay_timer;
                self.v.set(x as usize, d);
                self.advance_pc();
                proof {
                    assert(model(*self, *memory, *display) =~= spec_step(
                        m0,
                        ins,
                        kseq,
                        rand_byte,
                        cfg,
                    ).0);
                }
                StepOutcome::Advanced
            },
            Instruction::WaitKey(x) => {
                let o = self.op_wait_key(keys, x);
                proof {
                    let (m2, out) = spec_step(m0, ins, kseq, rand_byte, cfg);
                    assert(model(*self, *memory, *display) =~= m2);
                }
                o
            },
            Instruction::SetDelay(x) => {
                self.delay_timer = self.v[x as usize];
                self.advance_pc();
                proof {
                    assert(model(*self, *memory, *display) =~= spec_step(
                        m0,
                        ins,
                        kseq,
                        rand_byte,
                        cfg,
                    ).0);
                }
                StepOutcome::Advanced
            },
            Instruction::SetSound(x) => {
                self.sound_timer = self.v[x as usize];
                self.advance_pc();
                proof {
                    assert(model(*self, *memory, *display) =~= spec_step(
                        m0,
                        ins,
                        kseq,
                        rand_byte,
                        cfg,
                    ).0);
                }
                StepOutcome::Advanced
            },
            Instruction::AddIndex(x) => {
                let vx: u8 = self.v[x as usize];
                proof {
                    lemma_wrap16(self.i + vx);
                }
                self.i = self.i.wrapping_add(vx as u16);
                self.advance_pc();
                proof {
                    assert(model(*self, *memory, *display) =~= spec_step(
                        m0,
                        ins,
                        kseq,
                        rand_byte,
                        cfg,
                    ).0);
                }
                StepOutcome::Advanced
            },
            Instruction::LoadFontChar(x) => {
                let vx: u8 = self.v[x as usize];
                self.i = FONT_ADDRESS + 5 * (vx as u16);
                self.advance_pc();
                proof {
                    assert(model(*self, *memory, *display) =~= spec_step(
                        m0,
                        ins,
                        kseq,
                        rand_byte,
                        cfg,
                    ).0);
                }
                StepOutcome::Advanced
            },
            Instruction::StoreBcd(x) => {
                let val: u8 = self.v[x as usize];
                let i0: u16 = self.i;
                proof {
                    lemma_wrap16_mod4096(i0 + 1);
                    lemma_wrap16_mod4096(i0 + 2);
                    lemma_wrap16(i0 + 1);
                    lemma_wrap16(i0 + 2);
                }
                memory.write(i0, val / 100);
                memory.write(i0.wrapping_add(1), (val / 10) % 10);
                memory.write(i0.wrapping_add(2), val % 10);
                self.advance_pc();
                proof {
                    assert(model(*self, *memory, *display) =~= spec_step(
                        m0,
                        ins,
                        kseq,
                        rand_byte,
                        cfg,
                    ).0);
                }
                StepOutcome::Advanced
            },
            Instruction::StoreRegs(x) => {
                self.op_store_regs(memory, x);
                proof {
                    assert(model(*self, *memory, *display) =~= spec_step(
                        m0,
                        ins,
                        kseq,
                        rand_byte,
                        cfg,
                    ).0);
                }
                StepOutcome::Advanced
            },
            Instruction::LoadRegs(x) => {
                self.op_load_regs(memory, x);
                proof {
                    assert(model(*self, *memory, *display) =~= spec_step(
                        m0,
                        ins,
                        kseq,
                        rand_byte,
                        cfg,
                    ).0);
                }
                StepOutcome::Advanced
            },
            Instruction::Unknown(_) => {
                self.advance_pc();
                proof {
                    assert(model(*self, *memory, *display) =~= spec_step(
                        m0,
                        ins,
                        kseq,
                        rand_byte,
                        cfg,
                    ).0);
                }
                StepOutcome::Faulted(Chip8Error::UnknownOpcode)
            },
        }
    }

    /// One full interpreter cycle: fetch the opcode at the program counter,
    /// decode it, and execute it. For the random instruction a fresh random
    /// byte is drawn, so the contract holds for some byte; for every other
    /// instruction the byte is irrelevant and the post-state is pinned
    /// exactly.
    pub fn decode(
        &mut self,
        memory: &mut Memory,
        display: &mut Display,
        keys: &[bool; 16],
    ) -> (o: StepOutcome)
        requires
            old(self).wf(),
            old(memory).wf(),
            old(display).wf(),
        ensures
            final(self).wf(),
            final(memory).wf(),
            final(display).wf(),
            final(self).config == old(self).config,
            ({
                let m0 = model(*old(self), *old(memory), *old(display));
                let ins = spec_decode(spec_fetch(m0.mem, m0.pc));
                &&& exists|r: u8|
                    (#[trigger] spec_step(m0, ins, keys@, r, old(self).config)) == (model(
                        *final(self),
                        *final(memory),
                        *final(display),
                    ), o)
                &&& !(ins is RandomMask) ==> spec_step(m0, ins, keys@, 0u8, old(self).config)
                    == (model(*final(self), *final(memory), *final(display)), o)
            }),
    {
        let ghost m0 = model(*self, *memory, *display);
        proof {
            lemma_wrap16(self.pc + 1);
            lemma_wrap16_mod4096(self.pc + 1);
        }
        let hi: u8 = memory.read(self.pc);
        let lo: u8 = memory.read(self.pc.wrapping_add(1));
        let op: u16 = (hi as u16) * 256 + (lo as u16);
        proof {
            assert(op == spec_fetch(m0.mem, m0.pc));
            lemma_decode_wf(op);
        }
        let ins = decode_opcode(op);
        let rb: u8 = match ins {
            Instruction::RandomMask(_, _) => random_byte(),
            _ => 0,
        };
        let o = self.execute(ins, memory, display, keys, rb);
        proof {
            assert(spec_step(m0, spec_decode(spec_fetch(m0.mem, m0.pc)), keys@, rb, old(self).config)
                == (model(*self, *memory, *display), o));
        }
        o
    }

    /// The draw instruction: read `n` sprite bytes from memory starting at
    /// the index pointer, XOR-blit them at the coordinates in the selected
    /// registers, and set the flags register to the collision result.
    fn op_draw(&mut self, memory: &mut Memory, display: &mut Display, x: u8, y: u8, n: u8)
        requires
            old(self).wf(),
            old(memory).wf(),
            old(display).wf(),
            x < 16,
            y < 16,
            n < 16,
        ensures
            final(self).wf(),
            final(memory).wf(),
            final(display).wf(),
            *final(memory) == *old(memory),
            ({
                let m = model(*old(self), *old(memory), *old(display));
                let sprite = Seq::new(n as nat, |k: int| m.mem[(m.i + k) % 4096]);
                let px = m.v[x as int] as int;
                let py = m.v[y as int] as int;
                let coll = draw_collision(m.grid, sprite, px, py);
                &&& final(display).pixels@ == draw_grid(m.grid, sprite, px, py)
                &&& final(self).v@ == m.v.update(15, if coll { 1u8 } else { 0u8 })
                &&& *final(self) == (CPU {
                    pc: wrap16(m.pc + 2),
                    v: final(self).v,
                    ..*old(self)
                })
                &&& final(display).width == old(display).width
                &&& final(display).height == old(display).height
            }),
    {
        let ghost m = model(*self, *memory, *display);
        let ghost sprite_spec = Seq::new(n as nat, |k: int| m.mem[(m.i + k) % 4096]);
        let vx: u8 = self.v[x as usize];
        let vy: u8 = self.v[y as usize];
        let i0: u16 = self.i;
        let mut sprite: Vec<u8> = Vec::new();
        let mut k: usize = 0;
        while k < n as usize
            invariant
                memory.wf(),
                k == sprite@.len(),
                k <= n,
                n < 16,
                i0 == m.i,
                memory.data@ == m.mem,
                forall|j: int| 0 <= j < k ==> sprite@[j] == m.mem[(m.i + j) % 4096],
            decreases n - k,
        {
            proof {
                lemma_wrap16(i0 + k);
                lemma_wrap16_mod4096(i0 + k);
            }
            let b: u8 = memory.read(i0.wrapping_add(k as u16));
            sprite.push(b);
            k = k + 1;
        }
        proof {
            assert(sprite@ =~= sprite_spec);
        }
        let coll: bool = display.draw_sprite(vx, vy, &sprite);
        self.v.set(15, if coll { 1 } else { 0 });
        self.advance_pc();
    }

    /// The wait-for-key instruction: if no key is pressed, leave every part
    /// of the machine untouched and report `Waiting`; otherwise store the
    /// lowest-indexed pressed key and advance.
    fn op_wait_key(&mut self, keys: &[bool; 16], x: u8) -> (o: StepOutcome)
        requires
            old(self).wf(),
            x < 16,
        ensures
            final(self).wf(),
            ({
                match first_key(keys@) {
                    Some(kv) => *final(self) == (CPU {
                        pc: wrap16(old(self).pc + 2),
                        v: final(self).v,
                        ..*old(self)
                    }) && final(self).v@ == old(self).v@.update(x as int, kv) && o
                        == StepOutcome::Advanced,
                    None => *final(self) == *old(self) && o == StepOutcome::Waiting,
                }
            }),
    {
        let ghost kseq = keys@;
        let mut found: bool = false;
        let mut key_val: u8 = 0;
        let mut j: usize = 0;
        while j < 16
            invariant
                kseq == keys@,
                j <= 16,
                !found ==> first_key(kseq) == first_key_from(kseq, j as int),
                found ==> first_key(kseq) == Some(key_val),
                found ==> j == 16,
            decreases 16 - j,
        {
            if keys[j] {
                found = true;
                key_val = j as u8;
                proof {
                    assert(first_key_from(kseq, j as int) == Some(j as u8));
                }
                j = 16;
            } else {
                proof {
                    assert(first_key_from(kseq, j as int) == first_key_from(kseq, j as int + 1));
                }
                j = j + 1;
            }
        }
        if found {
            self.v.set(x as usize, key_val);
            self.advance_pc();
            StepOutcome::Advanced
        } else {
            StepOutcome::Waiting
        }
    }

    /// The bulk register store: registers `0 ..= x` written to consecutive
    /// memory bytes from the index pointer, which the configured quirk may
    /// leave advanced past the range.
    fn op_store_regs(&mut self, memory: &mut Memory, x: u8)
        requires
            old(self).wf(),
            old(memory).wf(),
            x < 16,
        ensures
            final(self).wf(),
            final(memory).wf(),
            final(memory).data@ == store_regs_spec(
                old(memory).data@,
                old(self).v@,
                old(self).i as int,
                x as int + 1,
            ),
            *final(self) == (CPU {
                pc: wrap16(old(self).pc + 2),
                i: if old(self).config.index_advances_on_bulk_transfer {
                    wrap16(old(self).i + x + 1)
                } else {
                    old(self).i
                },
                ..*old(self)
            }),
    {
        let ghost s0 = *self;
        let ghost mem0 = memory.data@;
        let ghost v0 = self.v@;
        let i0: u16 = self.i;
        let mut k: usize = 0;
        while k < x as usize + 1
            invariant
                *self == s0,
                s0.wf(),
                memory.wf(),
                x < 16,
                k <= x as int + 1,
                i0 == s0.i,
                v0 == s0.v@,
                memory.data@ == store_regs_spec(mem0, v0, i0 as int, k as int),
            decreases x + 1 - k,
        {
            proof {
                lemma_wrap16(i0 + k);
                lemma_wrap16_mod4096(i0 + k);
            }
            let b: u8 = self.v[k];
            memory.write(i0.wrapping_add(k as u16), b);
            k = k + 1;
        }
        if self.config.index_advances_on_bulk_transfer {
            proof {
                lemma_wrap16(i0 + x + 1);
            }
            self.i = i0.wrapping_add(x as u16 + 1);
        }
        self.advance_pc();
    }

    /// The bulk register load: registers `0 ..= x` filled from consecutive
    /// memory bytes from the index pointer, which the configured quirk may
    /// leave advanced past the range.
    fn op_load_regs(&mut self, memory: &mut Memory, x: u8)
        requires
            old(self).wf(),
            old(memory).wf(),
            x < 16,
        ensures
            final(self).wf(),
            final(memory).wf(),
            *final(memory) == *old(memory),
            final(self).v@ == Seq::new(
                16,
                |k: int|
                    if k <= x as int {
                        old(memory).data@[(old(self).i + k) % 4096]
                    } else {
                        old(self).v@[k]
                    },
            ),
            *final(self) == (CPU {
                pc: wrap16(old(self).pc + 2),
                v: final(self).v,
                i: if old(self).config.index_advances_on_bulk_transfer {
                    wrap16(old(self).i + x + 1)
                } else {
                    old(self).i
                },
                ..*old(self)
            }),
    {
        let ghost s0 = *self;
        let ghost mm0 = *memory;
        let ghost mem0 = memory.data@;
        let ghost v0 = self.v@;
        let i0: u16 = self.i;
        let mut k: usize = 0;
        while k < x as usize + 1
            invariant
                self.wf(),
                *self == (CPU { v: self.v, ..s0 }),
                *memory == mm0,
                memory.wf(),
                x < 16,
                k <= x as int + 1,
                i0 == s0.i,
                v0 == s0.v@,
                memory.data@ == mem0,
                forall|j: int| 0 <= j < k ==> self.v@[j] == mem0[(i0 + j) % 4096],
                forall|j: int| k <= j < 16 ==> self.v@[j] == v0[j],
            decreases x + 1 - k,
        {
            proof {
                lemma_wrap16(i0 + k);
                lemma_wrap16_mod4096(i0 + k);
            }
            let b: u8 = memory.read(i0.wrapping_add(k as u16));
            self.v.set(k, b);
            k = k + 1;
        }
        proof {
            assert(self.v@ =~= Seq::new(
                16,
                |j: int|
                    if j <= x as int {
                        mem0[(i0 + j) % 4096]
                    } else {
                        v0[j]
                    },
            ));
        }
        if self.config.index_advances_on_bulk_transfer {
            proof {
                lemma_wrap16(i0 + x + 1);
            }
            self.i = i0.wrapping_add(x as u16 + 1);
        }
        self.advance_pc();
    }
}

/// Law: load-immediate into any register, followed immediately by a read of
/// that register, yields the loaded value.
pub proof fn lemma_load_immediate(
    m: MachineModel,
    x: u8,
    nn: u8,
    keys: Seq<bool>,
    r: u8,
    cfg: QuirkConfig,
)
    requires
        m.wf(),
        x < 16,
    ensures
        spec_step(m, Instruction::LoadImm(x, nn), keys, r, cfg).0.v[x as int] == nn,
{
}

/// Law: for every register pair, add-with-carry sets the flags register to 1
/// exactly when the unsigned sum exceeds 255, and stores the sum modulo 256.
/// The flags register itself is excluded as destination, since the carry
/// overwrites it.
pub proof fn lemma_add_with_carry(
    m: MachineModel,
    x: u8,
    y: u8,
    keys: Seq<bool>,
    r: u8,
    cfg: QuirkConfig,
)
    requires
        m.wf(),
        x < 15,
        y < 16,
    ensures
        ({
            let m2 = spec_step(m, Instruction::AddReg(x, y), keys, r, cfg).0;
            &&& m2.v[15] == if m.v[x as int] + m.v[y as int] > 255 {
                1u8
            } else {
                0u8
            }
            &&& m2.v[x as int] == ((m.v[x as int] + m.v[y as int]) % 256) as u8
        }),
{
}

/// Law: subtract-with-borrow sets the flags register to 1 exactly when no
/// borrow occurred (minuend at least the subtrahend), else 0, and stores the
/// wrapped difference. The flags register itself is excluded as destination,
/// since the borrow flag overwrites it.
pub proof fn lemma_sub_with_borrow(
    m: MachineModel,
    x: u8,
    y: u8,
    keys: Seq<bool>,
    r: u8,
    cfg: QuirkConfig,
)
    requires
        m.wf(),
        x < 15,
        y < 16,
    ensures
        ({
            let m2 = spec_step(m, Instruction::SubReg(x, y), keys, r, cfg).0;
            &&& m2.v[15] == if m.v[x as int] >= m.v[y as int] {
                1u8
            } else {
                0u8
            }
            &&& m2.v[x as int] == ((m.v[x as int] - m.v[y as int]) % 256) as u8
        }),
{
}

/// Law: a call followed by a return lands the program counter on the
/// instruction immediately after the call, at any nesting depth the 16-entry
/// stack admits, and preserves the stack entries below the call.
pub proof fn lemma_call_return(
    m: MachineModel,
    a: u16,
    keys: Seq<bool>,
    r: u8,
    cfg: QuirkConfig,
)
    requires
        m.wf(),
        m.sp < 16,
        a < 4096,
    ensures
        ({
            let (m1, out1) = spec_step(m, Instruction::Call(a), keys, r, cfg);
            let (m2, out2) = spec_step(m1, Instruction::Return, keys, r, cfg);
            &&& out1 == StepOutcome::Advanced
            &&& m1.pc == a
            &&& m1.sp == m.sp + 1
            &&& out2 == StepOutcome::Advanced
            &&& m2.pc == wrap16(m.pc + 2)
            &&& m2.sp == m.sp
            &&& forall|j: int| 0 <= j < m.sp ==> m1.stack[j] == m.stack[j]
            &&& m2.stack == m1.stack
        }),
{
}

/// Law: a call attempted with all 16 stack entries in use is rejected: it is
/// reported as a stack overflow, corrupts no stack entry, and execution
/// continues at the next instruction.
pub proof fn lemma_call_overflow(
    m: MachineModel,
    a: u16,
    keys: Seq<bool>,
    r: u8,
    cfg: QuirkConfig,
)
    requires
        m.wf(),
        m.sp == 16,
        a < 4096,
    ensures
        ({
            let (m1, out) = spec_step(m, Instruction::Call(a), keys, r, cfg);
            &&& out == StepOutcome::Faulted(Chip8Error::StackOverflow)
            &&& m1.stack == m.stack
            &&& m1.sp == m.sp
            &&& m1.pc == wrap16(m.pc + 2)
            &&& m1.v == m.v
            &&& m1.mem == m.mem
            &&& m1.grid == m.grid
        }),
{
}

/// Law: wait-for-key leaves the whole machine untouched, program counter
/// included, on a cycle where no key is pressed, and on a cycle where some
/// key is pressed it advances exactly once, storing the lowest-indexed
/// pressed key.
pub proof fn lemma_wait_for_key(
    m: MachineModel,
    x: u8,
    keys: Seq<bool>,
    r: u8,
    cfg: QuirkConfig,
)
    requires
        m.wf(),
        x < 16,
        keys.len() == 16,
    ensures
        ({
            let (m1, out) = spec_step(m, Instruction::WaitKey(x), keys, r, cfg);
            &&& (forall|k: int| 0 <= k < 16 ==> !keys[k]) ==> (m1 == m && out
                == StepOutcome::Waiting)
            &&& (exists|k: int| 0 <= k < 16 && keys[k]) ==> (out == StepOutcome::Advanced
                && m1.pc == wrap16(m.pc + 2) && exists|k: int|
                0 <= k < 16 && keys[k] && (forall|j: int| 0 <= j < k ==> !keys[j]) && m1.v[
                    x as int
                ] == k as u8)
        }),
{
    lemma_first_key(keys, 0);
    if exists|k: int| 0 <= k < 16 && keys[k] {
        let k0 = choose|k: int| 0 <= k < 16 && keys[k];
        assert(!(first_key(keys) is None));
        let kv = first_key(keys)->Some_0;
        assert(0 <= kv < 16 && keys[kv as int] && (forall|j: int| 0 <= j < kv ==> !keys[j]));
    }
}

} // verus!
