//! The mathematical model of the machine: an abstract state, the
//! decoded instruction set, and the meaning of one fetch/decode/execute
//! step. Every executable operation's contract is stated against this
//! model.

use vstd::prelude::*;
use vstd::wrapping::u8_specs;
use vstd::wrapping::u16_specs;
use crate::types::Point;
use crate::types::EmulatorState;

verus! {

/// Bytes of addressable memory.
pub const MEMORY_SIZE: usize = 4096;

/// Number of general-purpose registers.
pub const NUM_REGISTERS: usize = 16;

/// First address of the loaded program; everything below is the
/// font/data region.
pub const PROGRAM_START: usize = 512;

/// Largest program the loader accepts.
pub const MAX_PROGRAM_LEN: usize = 3584;

/// Instructions executed by one frame cycle before the timers tick.
pub const STEPS_PER_CYCLE: usize = 10;

/// The abstract machine state. Memory addresses derived from the index
/// register plus an offset are reduced modulo the memory size, so every
/// instruction is total; this wrapping policy also covers the fetch
/// itself when the program counter points at the last byte.
pub struct VmView {
    pub mem: Seq<u8>,
    pub regs: Seq<u8>,
    pub i: u16,
    pub delay_timer: u8,
    pub sound_timer: u8,
    pub pc: u16,
    pub stack: Seq<u16>,
    pub display: Set<Point>,
    pub keys: Seq<u8>,
    pub state: EmulatorState,
}

impl VmView {
    /// Validity of the fixed-size pieces of the state.
    pub open spec fn wf(self) -> bool {
        &&& self.mem.len() == MEMORY_SIZE
        &&& self.regs.len() == NUM_REGISTERS
        &&& self.display.finite()
    }
}

/// The state right after initialization: zeroed memory and registers,
/// program counter at the program start, everything else empty, and
/// the machine playing.
pub open spec fn initial_view() -> VmView {
    VmView {
        mem: Seq::new(MEMORY_SIZE as nat, |j: int| 0u8),
        regs: Seq::new(NUM_REGISTERS as nat, |j: int| 0u8),
        i: 0,
        delay_timer: 0,
        sound_timer: 0,
        pc: 0x200,
        stack: Seq::empty(),
        display: Set::empty(),
        keys: Seq::empty(),
        state: EmulatorState::Playing,
    }
}

/// Register selector in bits 8-11 of an opcode.
pub open spec fn op_x(op: u16) -> u8 {
    ((op >> 8) & 0xF) as u8
}

/// Register selector in bits 4-7 of an opcode.
pub open spec fn op_y(op: u16) -> u8 {
    ((op >> 4) & 0xF) as u8
}

/// The low nibble of an opcode.
pub open spec fn op_n(op: u16) -> u8 {
    (op & 0xF) as u8
}

/// The low byte of an opcode.
pub open spec fn op_nn(op: u16) -> u8 {
    (op & 0xFF) as u8
}

/// The low 12 bits of an opcode: an address.
pub open spec fn op_nnn(op: u16) -> u16 {
    op & 0xFFF
}

pub proof fn lemma_op_field_bounds(op: u16)
    ensures
        op_x(op) < 16,
        op_y(op) < 16,
        op_n(op) < 16,
        op_nnn(op) < 4096,
{
    assert((((op >> 8) & 0xF) as u8) < 16 && (((op >> 4) & 0xF) as u8) < 16 && ((op & 0xF) as u8)
        < 16 && (op & 0xFFF) < 4096) by (bit_vector);
}

/// A decoded opcode: the outer family tag and its operands. Patterns
/// that match no documented instruction decode to `Nop`.
#[derive(Copy, Clone, PartialEq, Eq, Structural, Debug)]
pub enum Instr {
    /// 00E0: empty the display buffer.
    ClearScreen,
    /// 00EE: return from a subroutine; faults on an empty stack.
    Return,
    /// 1nnn: jump.
    Jump { nnn: u16 },
    /// 2nnn: push the return address and jump.
    Call { nnn: u16 },
    /// 3xnn: skip the next instruction if Vx == nn.
    SkipEqImm { x: u8, nn: u8 },
    /// 4xnn: skip the next instruction if Vx != nn.
    SkipNeImm { x: u8, nn: u8 },
    /// 5xy0: skip the next instruction if Vx == Vy.
    SkipEqReg { x: u8, y: u8 },
    /// 6xnn: Vx = nn.
    SetImm { x: u8, nn: u8 },
    /// 7xnn: Vx = Vx + nn, wrapping, no flag effect.
    AddImm { x: u8, nn: u8 },
    /// 8xy0: Vx = Vy.
    CopyReg { x: u8, y: u8 },
    /// 8xy1: Vx = Vx | Vy, then VF = 0.
    OrReg { x: u8, y: u8 },
    /// 8xy2: Vx = Vx & Vy, then VF = 0.
    AndReg { x: u8, y: u8 },
    /// 8xy3: Vx = Vx ^ Vy, then VF = 0.
    XorReg { x: u8, y: u8 },
    /// 8xy4: Vx = low byte of Vx + Vy, then VF = carry.
    AddCarry { x: u8, y: u8 },
    /// 8xy5: VF = (Vx > Vy), then Vx = Vx - Vy wrapping.
    SubBorrow { x: u8, y: u8 },
    /// 8xy6: VF = pre-shift low bit of Vx, then Vx = Vx >> 1.
    ShiftRight { x: u8 },
    /// 8xy7: VF = (Vy > Vx), then Vx = Vy - Vx wrapping.
    SubFrom { x: u8, y: u8 },
    /// 8xyE: VF = pre-shift high bit of Vx, then Vx = Vx << 1.
    ShiftLeft { x: u8 },
    /// 9xy0: skip the next instruction if Vx != Vy.
    SkipNeReg { x: u8, y: u8 },
    /// Annn: I = nnn.
    SetIndex { nnn: u16 },
    /// Bnnn: jump to nnn + V0.
    JumpPlusV0 { nnn: u16 },
    /// Cxnn: Vx = random byte masked by nn.
    RandomMask { x: u8, nn: u8 },
    /// Dxyn: draw the n-byte sprite at memory[I..] at (Vx, Vy).
    DrawSprite { x: u8, y: u8, n: u8 },
    /// Ex9E: skip the next instruction if key Vx is pressed.
    SkipKeyPressed { x: u8 },
    /// ExA1: skip the next instruction if key Vx is not pressed.
    SkipKeyNotPressed { x: u8 },
    /// Fx07: Vx = delay timer.
    ReadDelay { x: u8 },
    /// Fx0A: wait for a key; rewinds the program counter while none is
    /// pressed.
    WaitKey { x: u8 },
    /// Fx15: delay timer = Vx.
    SetDelay { x: u8 },
    /// Fx18: sound timer = Vx.
    SetSound { x: u8 },
    /// Fx1E: I = I + Vx, wrapping.
    AddIndex { x: u8 },
    /// Fx29: I = 5 * Vx, the font glyph for digit Vx.
    FontIndex { x: u8 },
    /// Fx33: the decimal digits of Vx to memory[I], [I+1], [I+2].
    StoreBcd { x: u8 },
    /// Fx55: V0..=Vx to memory[I..].
    StoreRegs { x: u8 },
    /// Fx65: V0..=Vx from memory[I..].
    LoadRegs { x: u8 },
    /// Any unrecognized pattern: executes as a no-op.
    Nop,
}

/// Decode a 16-bit opcode: dispatch on the top nibble, then on the low
/// nibble or low byte within a family.
pub open spec fn spec_decode(op: u16) -> Instr {
    let fam = op & 0xF000;
    if fam == 0x0000 {
        if op & 0x00FF == 0xE0 {
            Instr::ClearScreen
        } else if op & 0x00FF == 0xEE {
            Instr::Return
        } else {
            Instr::Nop
        }
    } else if fam == 0x1000 {
        Instr::Jump { nnn: op_nnn(op) }
    } else if fam == 0x2000 {
        Instr::Call { nnn: op_nnn(op) }
    } else if fam == 0x3000 {
        Instr::SkipEqImm { x: op_x(op), nn: op_nn(op) }
    } else if fam == 0x4000 {
        Instr::SkipNeImm { x: op_x(op), nn: op_nn(op) }
    } else if fam == 0x5000 {
        Instr::SkipEqReg { x: op_x(op), y: op_y(op) }
    } else if fam == 0x6000 {
        Instr::SetImm { x: op_x(op), nn: op_nn(op) }
    } else if fam == 0x7000 {
        Instr::AddImm { x: op_x(op), nn: op_nn(op) }
    } else if fam == 0x8000 {
        let sub = op & 0x000F;
        if sub == 0x0 {
            Instr::CopyReg { x: op_x(op), y: op_y(op) }
        } else if sub == 0x1 {
            Instr::OrReg { x: op_x(op), y: op_y(op) }
        } else if sub == 0x2 {
            Instr::AndReg { x: op_x(op), y: op_y(op) }
        } else if sub == 0x3 {
            Instr::XorReg { x: op_x(op), y: op_y(op) }
        } else if sub == 0x4 {
            Instr::AddCarry { x: op_x(op), y: op_y(op) }
        } else if sub == 0x5 {
            Instr::SubBorrow { x: op_x(op), y: op_y(op) }
        } else if sub == 0x6 {
            Instr::ShiftRight { x: op_x(op) }
        } else if sub == 0x7 {
            Instr::SubFrom { x: op_x(op), y: op_y(op) }
        } else if sub == 0xE {
            Instr::ShiftLeft { x: op_x(op) }
        } else {
            Instr::Nop
        }
    } else if fam == 0x9000 {
        Instr::SkipNeReg { x: op_x(op), y: op_y(op) }
    } else if fam == 0xA000 {
        Instr::SetIndex { nnn: op_nnn(op) }
    } else if fam == 0xB000 {
        Instr::JumpPlusV0 { nnn: op_nnn(op) }
    } else if fam == 0xC000 {
        Instr::RandomMask { x: op_x(op), nn: op_nn(op) }
    } else if fam == 0xD000 {
        Instr::DrawSprite { x: op_x(op), y: op_y(op), n: op_n(op) }
    } else if fam == 0xE000 {
        let sub = op & 0x00FF;
        if sub == 0x9E {
            Instr::SkipKeyPressed { x: op_x(op) }
        } else if sub == 0xA1 {
            Instr::SkipKeyNotPressed { x: op_x(op) }
        } else {
            Instr::Nop
        }
    } else {
        let sub = op & 0x00FF;
        if sub == 0x07 {
            Instr::ReadDelay { x: op_x(op) }
        } else if sub == 0x0A {
            Instr::WaitKey { x: op_x(op) }
        } else if sub == 0x15 {
            Instr::SetDelay { x: op_x(op) }
        } else if sub == 0x18 {
            Instr::SetSound { x: op_x(op) }
        } else if sub == 0x1E {
            Instr::AddIndex { x: op_x(op) }
        } else if sub == 0x29 {
            Instr::FontIndex { x: op_x(op) }
        } else if sub == 0x33 {
            Instr::StoreBcd { x: op_x(op) }
        } else if sub == 0x55 {
            Instr::StoreRegs { x: op_x(op) }
        } else if sub == 0x65 {
            Instr::LoadRegs { x: op_x(op) }
        } else {
            Instr::Nop
        }
    }
}

/// The executable decoder, pinned to the model's decoder.
pub fn decode(op: u16) -> (ins: Instr)
    ensures
        ins == spec_decode(op),
{
    let fam = op & 0xF000;
    let x = ((op >> 8) & 0xF) as u8;
    let y = ((op >> 4) & 0xF) as u8;
    let n = (op & 0xF) as u8;
    let nn = (op & 0xFF) as u8;
    let nnn = op & 0xFFF;
    if fam == 0x0000 {
        if op & 0x00FF == 0xE0 {
            Instr::ClearScreen
        } else if op & 0x00FF == 0xEE {
            Instr::Return
        } else {
            Instr::Nop
        }
    } else if fam == 0x1000 {
        Instr::Jump { nnn }
    } else if fam == 0x2000 {
        Instr::Call { nnn }
    } else if fam == 0x3000 {
        Instr::SkipEqImm { x, nn }
    } else if fam == 0x4000 {
        Instr::SkipNeImm { x, nn }
    } else if fam == 0x5000 {
        Instr::SkipEqReg { x, y }
    } else if fam == 0x6000 {
        Instr::SetImm { x, nn }
    } else if fam == 0x7000 {
        Instr::AddImm { x, nn }
    } else if fam == 0x8000 {
        let sub = op & 0x000F;
        if sub == 0x0 {
            Instr::CopyReg { x, y }
        } else if sub == 0x1 {
            Instr::OrReg { x, y }
        } else if sub == 0x2 {
            Instr::AndReg { x, y }
        } else if sub == 0x3 {
            Instr::XorReg { x, y }
        } else if sub == 0x4 {
            Instr::AddCarry { x, y }
        } else if sub == 0x5 {
            Instr::SubBorrow { x, y }
        } else if sub == 0x6 {
            Instr::ShiftRight { x }
        } else if sub == 0x7 {
            Instr::SubFrom { x, y }
        } else if sub == 0xE {
            Instr::ShiftLeft { x }
        } else {
            Instr::Nop
        }
    } else if fam == 0x9000 {
        Instr::SkipNeReg { x, y }
    } else if fam == 0xA000 {
        Instr::SetIndex { nnn }
    } else if fam == 0xB000 {
        Instr::JumpPlusV0 { nnn }
    } else if fam == 0xC000 {
        Instr::RandomMask { x, nn }
    } else if fam == 0xD000 {
        Instr::DrawSprite { x, y, n }
    } else if fam == 0xE000 {
        let sub = op & 0x00FF;
        if sub == 0x9E {
            Instr::SkipKeyPressed { x }
        } else if sub == 0xA1 {
            Instr::SkipKeyNotPressed { x }
        } else {
            Instr::Nop
        }
    } else {
        let sub = op & 0x00FF;
        if sub == 0x07 {
            Instr::ReadDelay { x }
        } else if sub == 0x0A {
            Instr::WaitKey { x }
        } else if sub == 0x15 {
            Instr::SetDelay { x }
        } else if sub == 0x18 {
            Instr::SetSound { x }
        } else if sub == 0x1E {
            Instr::AddIndex { x }
        } else if sub == 0x29 {
            Instr::FontIndex { x }
        } else if sub == 0x33 {
            Instr::StoreBcd { x }
        } else if sub == 0x55 {
            Instr::StoreRegs { x }
        } else if sub == 0x65 {
            Instr::LoadRegs { x }
        } else {
            Instr::Nop
        }
    }
}

/// The operand ranges decoding guarantees: register selectors are
/// nibbles and addresses are 12 bits.
pub open spec fn instr_operand_bounds(ins: Instr) -> bool {
    match ins {
            Instr::SkipEqImm { x, .. } => x < 16,
            Instr::SkipNeImm { x, .. } => x < 16,
            Instr::SkipEqReg { x, y } => x < 16 && y < 16,
            Instr::SetImm { x, .. } => x < 16,
            Instr::AddImm { x, .. } => x < 16,
            Instr::CopyReg { x, y } => x < 16 && y < 16,
            Instr::OrReg { x, y } => x < 16 && y < 16,
            Instr::AndReg { x, y } => x < 16 && y < 16,
            Instr::XorReg { x, y } => x < 16 && y < 16,
            Instr::AddCarry { x, y } => x < 16 && y < 16,
            Instr::SubBorrow { x, y } => x < 16 && y < 16,
            Instr::ShiftRight { x } => x < 16,
            Instr::SubFrom { x, y } => x < 16 && y < 16,
            Instr::ShiftLeft { x } => x < 16,
            Instr::SkipNeReg { x, y } => x < 16 && y < 16,
            Instr::JumpPlusV0 { nnn } => nnn < 4096,
            Instr::RandomMask { x, .. } => x < 16,
            Instr::DrawSprite { x, y, .. } => x < 16 && y < 16,
            Instr::SkipKeyPressed { x } => x < 16,
            Instr::SkipKeyNotPressed { x } => x < 16,
            Instr::ReadDelay { x } => x < 16,
            Instr::WaitKey { x } => x < 16,
            Instr::SetDelay { x } => x < 16,
            Instr::SetSound { x } => x < 16,
            Instr::AddIndex { x } => x < 16,
            Instr::FontIndex { x } => x < 16,
            Instr::StoreBcd { x } => x < 16,
            Instr::StoreRegs { x } => x < 16,
            Instr::LoadRegs { x } => x < 16,
            _ => true,
    }
}

/// Every decoded instruction has in-range operands.
pub proof fn lemma_decode_operand_bounds(op: u16)
    ensures
        instr_operand_bounds(spec_decode(op)),
{
    lemma_op_field_bounds(op);
}

/// The display cell a set sprite bit lands on: column `col` of the row
/// drawn at height `py`, for a sprite whose origin column is `vx`. No
/// wrapping is applied; cells beyond the 64 x 32 grid are kept as they
/// are and left to the renderer.
pub open spec fn sprite_point(vx: u8, py: int, col: u8) -> Point {
    Point((vx + col) as i32, py as i32)
}

/// XOR at one cell: an unlit cell is lit, a lit cell is erased.
pub open spec fn toggled(d: Set<Point>, p: Point) -> Set<Point> {
    if d.contains(p) {
        d.remove(p)
    } else {
        d.insert(p)
    }
}

/// Draw the bits of one sprite row from bit `col` on (most significant
/// bit first), toggling cells and accumulating the collision flag.
pub open spec fn draw_row(d: Set<Point>, vf: bool, byte: u8, vx: u8, py: int, col: u8) -> (Set<
    Point,
>, bool)
    decreases 8 - col,
{
    if col >= 8 {
        (d, vf)
    } else {
        let on = byte & (0x80u8 >> col) != 0;
        let p = sprite_point(vx, py, col);
        let d2 = if on {
            toggled(d, p)
        } else {
            d
        };
        let vf2 = vf || (on && d.contains(p));
        draw_row(d2, vf2, byte, vx, py, (col + 1) as u8)
    }
}

/// Draw sprite rows `row..n`, each row the byte at memory[I + row]
/// reduced modulo the memory size.
pub open spec fn draw_rows(
    d: Set<Point>,
    vf: bool,
    mem: Seq<u8>,
    i: u16,
    vx: u8,
    vy: u8,
    row: u8,
    n: u8,
) -> (Set<Point>, bool)
    decreases n - row,
{
    if row >= n {
        (d, vf)
    } else {
        let byte = mem[(i + row) % (MEMORY_SIZE as int)];
        let r = draw_row(d, vf, byte, vx, vy + row as int, 0);
        draw_rows(r.0, r.1, mem, i, vx, vy, (row + 1) as u8, n)
    }
}

/// The whole sprite draw: the new lit-cell set and the collision flag,
/// which starts at false and becomes true if any toggle erased a cell.
pub open spec fn draw_sprite(d: Set<Point>, mem: Seq<u8>, i: u16, vx: u8, vy: u8, n: u8) -> (Set<
    Point,
>, bool) {
    draw_rows(d, false, mem, i, vx, vy, 0, n)
}

/// Memory after the BCD store: the decimal digits of `vx` at I, I+1,
/// I+2, each address reduced modulo the memory size.
pub open spec fn bcd_mem(mem: Seq<u8>, i: u16, vx: u8) -> Seq<u8> {
    mem.update((i as int) % (MEMORY_SIZE as int), ((vx / 100) as u8)).update(
        (i + 1) % (MEMORY_SIZE as int),
        (((vx % 100) / 10) as u8),
    ).update((i + 2) % (MEMORY_SIZE as int), ((vx % 10) as u8))
}

/// Memory after storing registers `j..=x` at I + j onward.
pub open spec fn store_regs_mem(mem: Seq<u8>, i: u16, regs: Seq<u8>, j: int, x: u8) -> Seq<u8>
    decreases x + 1 - j,
{
    if j > x {
        mem
    } else {
        store_regs_mem(mem.update((i + j) % (MEMORY_SIZE as int), regs[j]), i, regs, j + 1, x)
    }
}

/// Registers after loading `j..=x` from memory at I + j onward.
pub open spec fn load_regs_file(regs: Seq<u8>, i: u16, mem: Seq<u8>, j: int, x: u8) -> Seq<u8>
    decreases x + 1 - j,
{
    if j > x {
        regs
    } else {
        load_regs_file(regs.update(j, mem[(i + j) % (MEMORY_SIZE as int)]), i, mem, j + 1, x)
    }
}

/// The two instruction bytes at the program counter, big-endian, the
/// addresses reduced modulo the memory size.
pub open spec fn fetch_op(v: VmView) -> u16 {
    ((v.mem[(v.pc as int) % (MEMORY_SIZE as int)] as u16) << 8u16) | (v.mem[(v.pc + 1) % (
    MEMORY_SIZE as int)] as u16)
}

/// The effect of one decoded instruction on the state `v`, in which the
/// program counter has already been advanced past the instruction;
/// `pc0` is the address the instruction was fetched from, used by the
/// wait-for-key rewind. `None` is the one fatal outcome: a return with
/// an empty stack.
pub open spec fn apply_instr(pc0: u16, v: VmView, ins: Instr, rand: u8) -> Option<VmView> {
    match ins {
        Instr::ClearScreen => Some(VmView { display: Set::empty(), ..v }),
        Instr::Return => if v.stack.len() == 0 {
            None
        } else {
            Some(VmView { pc: v.stack.last(), stack: v.stack.drop_last(), ..v })
        },
        Instr::Jump { nnn } => Some(VmView { pc: nnn, ..v }),
        Instr::Call { nnn } => Some(VmView { stack: v.stack.push(v.pc), pc: nnn, ..v }),
        Instr::SkipEqImm { x, nn } => Some(
            if v.regs[x as int] == nn {
                VmView { pc: u16_specs::wrapping_add(v.pc, 2), ..v }
            } else {
                v
            },
        ),
        Instr::SkipNeImm { x, nn } => Some(
            if v.regs[x as int] != nn {
                VmView { pc: u16_specs::wrapping_add(v.pc, 2), ..v }
            } else {
                v
            },
        ),
        Instr::SkipEqReg { x, y } => Some(
            if v.regs[x as int] == v.regs[y as int] {
                VmView { pc: u16_specs::wrapping_add(v.pc, 2), ..v }
            } else {
                v
            },
        ),
        Instr::SetImm { x, nn } => Some(VmView { regs: v.regs.update(x as int, nn), ..v }),
        Instr::AddImm { x, nn } => Some(
            VmView {
                regs: v.regs.update(x as int, u8_specs::wrapping_add(v.regs[x as int], nn)),
                ..v
            },
        ),
        Instr::CopyReg { x, y } => Some(
            VmView { regs: v.regs.update(x as int, v.regs[y as int]), ..v },
        ),
        Instr::OrReg { x, y } => Some(
            VmView {
                regs: v.regs.update(x as int, v.regs[x as int] | v.regs[y as int]).update(15, 0),
                ..v
            },
        ),
        Instr::AndReg { x, y } => Some(
            VmView {
                regs: v.regs.update(x as int, v.regs[x as int] & v.regs[y as int]).update(15, 0),
                ..v
            },
        ),
        Instr::XorReg { x, y } => Some(
            VmView {
                regs: v.regs.update(x as int, v.regs[x as int] ^ v.regs[y as int]).update(15, 0),
                ..v
            },
        ),
        Instr::AddCarry { x, y } => {
            let sum = v.regs[x as int] + v.regs[y as int];
            Some(
                VmView {
                    regs: v.regs.update(x as int, (sum % 256) as u8).update(
                        15,
                        if sum > 255 {
                            1u8
                        } else {
                            0u8
                        },
                    ),
                    ..v
                },
            )
        },
        Instr::SubBorrow { x, y } => {
            let flagged = v.regs.update(
                15,
                if v.regs[x as int] > v.regs[y as int] {
                    1u8
                } else {
                    0u8
                },
            );
            Some(
                VmView {
                    regs: flagged.update(
                        x as int,
                        u8_specs::wrapping_sub(flagged[x as int], flagged[y as int]),
                    ),
                    ..v
                },
            )
        },
        Instr::ShiftRight { x } => {
            let flagged = v.regs.update(15, v.regs[x as int] & 1);
            Some(VmView { regs: flagged.update(x as int, flagged[x as int] >> 1u8), ..v })
        },
        Instr::SubFrom { x, y } => {
            let flagged = v.regs.update(
                15,
                if v.regs[y as int] > v.regs[x as int] {
                    1u8
                } else {
                    0u8
                },
            );
            Some(
                VmView {
                    regs: flagged.update(
                        x as int,
                        u8_specs::wrapping_sub(flagged[y as int], flagged[x as int]),
                    ),
                    ..v
                },
            )
        },
        Instr::ShiftLeft { x } => {
            let flagged = v.regs.update(15, v.regs[x as int] >> 7u8);
            Some(VmView { regs: flagged.update(x as int, flagged[x as int] << 1u8), ..v })
        },
        Instr::SkipNeReg { x, y } => Some(
            if v.regs[x as int] != v.regs[y as int] {
                VmView { pc: u16_specs::wrapping_add(v.pc, 2), ..v }
            } else {
                v
            },
        ),
        Instr::SetIndex { nnn } => Some(VmView { i: nnn, ..v }),
        Instr::JumpPlusV0 { nnn } => Some(VmView { pc: (nnn + v.regs[0]) as u16, ..v }),
        Instr::RandomMask { x, nn } => Some(
            VmView { regs: v.regs.update(x as int, rand & nn), ..v },
        ),
        Instr::DrawSprite { x, y, n } => {
            let r = draw_sprite(v.display, v.mem, v.i, v.regs[x as int], v.regs[y as int], n);
            Some(
                VmView {
                    display: r.0,
                    regs: v.regs.update(
                        15,
                        if r.1 {
                            1u8
                        } else {
                            0u8
                        },
                    ),
                    ..v
                },
            )
        },
        Instr::SkipKeyPressed { x } => Some(
            if v.keys.contains(v.regs[x as int]) {
                VmView { pc: u16_specs::wrapping_add(v.pc, 2), ..v }
            } else {
                v
            },
        ),
        Instr::SkipKeyNotPressed { x } => Some(
            if !v.keys.contains(v.regs[x as int]) {
                VmView { pc: u16_specs::wrapping_add(v.pc, 2), ..v }
            } else {
                v
            },
        ),
        Instr::ReadDelay { x } => Some(VmView { regs: v.regs.update(x as int, v.delay_timer), ..v }),
        Instr::WaitKey { x } => Some(
            if v.keys.len() == 0 {
                VmView { pc: pc0, ..v }
            } else {
                VmView { regs: v.regs.update(x as int, v.keys[0]), ..v }
            },
        ),
        Instr::SetDelay { x } => Some(VmView { delay_timer: v.regs[x as int], ..v }),
        Instr::SetSound { x } => Some(VmView { sound_timer: v.regs[x as int], ..v }),
        Instr::AddIndex { x } => Some(
            VmView { i: u16_specs::wrapping_add(v.i, v.regs[x as int] as u16), ..v },
        ),
        Instr::FontIndex { x } => Some(VmView { i: (v.regs[x as int] * 5) as u16, ..v }),
        Instr::StoreBcd { x } => Some(VmView { mem: bcd_mem(v.mem, v.i, v.regs[x as int]), ..v }),
        Instr::StoreRegs { x } => Some(
            VmView { mem: store_regs_mem(v.mem, v.i, v.regs, 0, x), ..v },
        ),
        Instr::LoadRegs { x } => Some(
            VmView { regs: load_regs_file(v.regs, v.i, v.mem, 0, x), ..v },
        ),
        Instr::Nop => Some(v),
    }
}

/// One fetch/decode/execute step with `rand` as the byte the random
/// instruction would consume. A paused machine does not move. The
/// program counter is advanced right after the fetch, so jumps and
/// calls overwrite the default advance.
pub open spec fn step_view(v: VmView, rand: u8) -> Option<VmView> {
    if v.state == EmulatorState::Paused {
        Some(v)
    } else {
        let op = fetch_op(v);
        let advanced = VmView { pc: u16_specs::wrapping_add(v.pc, 2), ..v };
        apply_instr(v.pc, advanced, spec_decode(op), rand)
    }
}

/// Run one step per entry of `rands`; the boolean is false if some
/// step faulted, in which case the state of the last successful step
/// is returned and the remaining entries are ignored.
pub open spec fn run_steps(v: VmView, rands: Seq<u8>) -> (VmView, bool)
    decreases rands.len(),
{
    if rands.len() == 0 {
        (v, true)
    } else {
        match step_view(v, rands[0]) {
            Some(w) => run_steps(w, rands.drop_first()),
            None => (v, false),
        }
    }
}

/// The per-frame timer tick: each timer counts down to zero and stays
/// there.
pub open spec fn tick_timers(v: VmView) -> VmView {
    VmView {
        delay_timer: if v.delay_timer > 0 {
            (v.delay_timer - 1) as u8
        } else {
            0
        },
        sound_timer: if v.sound_timer > 0 {
            (v.sound_timer - 1) as u8
        } else {
            0
        },
        ..v
    }
}

/// Extending a fault-free run by one step: the new step decides the
/// outcome.
#[verifier::rlimit(60)]
pub proof fn lemma_run_steps_snoc(v: VmView, rands: Seq<u8>, b: u8)
    requires
        run_steps(v, rands).1,
    ensures
        run_steps(v, rands.push(b)) == (match step_view(run_steps(v, rands).0, b) {
            Some(w) => (w, true),
            None => (run_steps(v, rands).0, false),
        }),
    decreases rands.len(),
{
    if rands.len() == 0 {
        assert(rands.push(b)[0] == b);
        assert(rands.push(b).drop_first() =~= rands);
        assert(run_steps(v, rands) == (v, true));
        match step_view(v, b) {
            Some(w) => {
                assert(run_steps(w, rands) == (w, true));
                assert(run_steps(v, rands.push(b)) == (w, true));
            },
            None => {
                assert(run_steps(v, rands.push(b)) == (v, false));
            },
        }
    } else {
        match step_view(v, rands[0]) {
            Some(w) => {
                assert(rands.push(b)[0] == rands[0]);
                assert(rands.push(b).drop_first() =~= rands.drop_first().push(b));
                assert(run_steps(v, rands) == run_steps(w, rands.drop_first()));
                lemma_run_steps_snoc(w, rands.drop_first(), b);
                assert(run_steps(v, rands.push(b)) == run_steps(w, rands.push(b).drop_first()));
            },
            None => {
                assert(run_steps(v, rands) == (v, false));
            },
        }
    }
}

} // verus!
