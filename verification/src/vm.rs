//! The machine itself: the interpreter state and the executable
//! operations on it, each pinned to the model in [`crate::model`].

use vstd::prelude::*;
use crate::font::font;
use crate::font::font_table;
use crate::keyboard::Keyboard;
use crate::model::MEMORY_SIZE;
use crate::model::NUM_REGISTERS;
use crate::model::PROGRAM_START;
use crate::model::MAX_PROGRAM_LEN;
use crate::model::STEPS_PER_CYCLE;
use crate::model::VmView;
use crate::model::initial_view;
use crate::model::tick_timers;
use crate::model::toggled;
use crate::model::sprite_point;
use crate::model::draw_row;
use crate::model::draw_rows;
use crate::model::draw_sprite;
use crate::model::store_regs_mem;
use crate::model::load_regs_file;
use crate::model::bcd_mem;
use crate::model::Instr;
use crate::model::decode;
use crate::model::fetch_op;
use crate::model::apply_instr;
use crate::model::step_view;
use crate::model::run_steps;
use crate::model::instr_operand_bounds;
use crate::model::lemma_decode_operand_bounds;
use crate::model::lemma_run_steps_snoc;
use crate::rng::random_byte;
use crate::types::EmulatorState;
use crate::types::Point;
use crate::types::VmFault;

verus! {

/// The interpreter state: memory, registers, index register, timers,
/// program counter, call stack, display buffer and key latch.
///
/// The display buffer is kept as the vector of lit cells; its view is
/// the set of those cells, and the representation invariant keeps the
/// vector duplicate-free so that the XOR toggle of the draw
/// instruction is a set toggle.
pub struct EmulatorContext {
    pub keyboard: Keyboard,
    pub display: Vec<Point>,
    pub state: EmulatorState,
    pub memory: Vec<u8>,
    pub registers: Vec<u8>,
    pub i: u16,
    pub delay_timer: u8,
    pub sound_timer: u8,
    pub pc: u16,
    pub stack: Vec<u16>,
}

impl View for EmulatorContext {
    type V = VmView;

    open spec fn view(&self) -> VmView {
        VmView {
            mem: self.memory@,
            regs: self.registers@,
            i: self.i,
            delay_timer: self.delay_timer,
            sound_timer: self.sound_timer,
            pc: self.pc,
            stack: self.stack@,
            display: self.display@.to_set(),
            keys: self.keyboard@,
            state: self.state,
        }
    }
}

proof fn lemma_to_set_push(s: Seq<Point>, p: Point)
    ensures
        s.push(p).to_set() == s.to_set().insert(p),
{
    assert forall|q: Point| s.push(p).to_set().contains(q) implies s.to_set().insert(p).contains(
        q,
    ) by {
        if q != p {
            let k = choose|k: int| 0 <= k < s.push(p).len() && s.push(p)[k] == q;
            assert(s[k] == q);
            assert(s.contains(q));
        }
    }
    assert forall|q: Point| s.to_set().insert(p).contains(q) implies s.push(p).to_set().contains(
        q,
    ) by {
        if q == p {
            assert(s.push(p)[s.len() as int] == q);
        } else {
            let k = choose|k: int| 0 <= k < s.len() && s[k] == q;
            assert(s.push(p)[k] == q);
        }
        assert(s.push(p).contains(q));
    }
    assert(s.push(p).to_set() =~= s.to_set().insert(p));
}

proof fn lemma_to_set_remove(s: Seq<Point>, idx: int)
    requires
        0 <= idx < s.len(),
        forall|a: int, b: int| 0 <= a < b < s.len() ==> s[a] != s[b],
    ensures
        s.remove(idx).to_set() == s.to_set().remove(s[idx]),
        forall|a: int, b: int|
            0 <= a < b < s.remove(idx).len() ==> s.remove(idx)[a] != s.remove(idx)[b],
{
    let t = s.remove(idx);
    assert forall|q: Point| t.to_set().contains(q) implies s.to_set().remove(s[idx]).contains(
        q,
    ) by {
        let k = choose|k: int| 0 <= k < t.len() && t[k] == q;
        if k < idx {
            assert(s[k] == q);
        } else {
            assert(s[k + 1] == q);
        }
        assert(s.contains(q));
        assert(q != s[idx]);
    }
    assert forall|q: Point| s.to_set().remove(s[idx]).contains(q) implies t.to_set().contains(
        q,
    ) by {
        let k = choose|k: int| 0 <= k < s.len() && s[k] == q;
        if k < idx {
            assert(t[k] == q);
        } else {
            assert(t[k - 1] == q);
        }
        assert(t.contains(q));
    }
    assert(t.to_set() =~= s.to_set().remove(s[idx]));
}

impl EmulatorContext {
    /// Representation invariant: the fixed-size pieces have their
    /// sizes, and each lit cell appears in the display vector once.
    pub open spec fn wf(&self) -> bool {
        &&& self.memory@.len() == MEMORY_SIZE
        &&& self.registers@.len() == NUM_REGISTERS
        &&& forall|a: int, b: int|
            0 <= a < b < self.display@.len() ==> self.display@[a] != self.display@[b]
    }

    /// A machine with zeroed memory, registers, index register and
    /// timers, the program counter at the program start, an empty
    /// stack, display and key latch, and the state playing.
    pub fn new() -> (vm: EmulatorContext)
        ensures
            vm.wf(),
            vm@ == initial_view(),
    {
        let vm = EmulatorContext {
            keyboard: Keyboard::new(),
            display: Vec::new(),
            state: EmulatorState::Playing,
            memory: vec![0u8; 4096],
            registers: vec![0u8; 16],
            i: 0,
            delay_timer: 0,
            sound_timer: 0,
            pc: 0x200,
            stack: Vec::new(),
        };
        proof {
            assert(vm@.mem =~= initial_view().mem);
            assert(vm@.regs =~= initial_view().regs);
            assert(vm@.display =~= initial_view().display);
            assert(vm@ == initial_view());
        }
        vm
    }

    /// Write the built-in glyph table over the first 80 bytes of
    /// memory; nothing else moves.
    pub fn load_sprites_into_memory(&mut self)
        requires
            old(self).wf(),
        ensures
            final(self).wf(),
            final(self)@ == (VmView { mem: font() + old(self)@.mem.skip(80), ..old(self)@ }),
    {
        let table = font_table();
        let mut j: usize = 0;
        while j < 80
            invariant
                old(self).wf(),
                j <= 80,
                table@ == font(),
                self.memory@.len() == MEMORY_SIZE,
                forall|k: int| 0 <= k < j ==> self.memory@[k] == font()[k],
                forall|k: int| j <= k < MEMORY_SIZE ==> self.memory@[k] == old(self).memory@[k],
                *self == (EmulatorContext { memory: self.memory, ..*old(self) }),
            decreases 80 - j,
        {
            self.memory[j] = table[j];
            j += 1;
        }
        proof {
            assert(self.memory@ =~= font() + old(self).memory@.skip(80));
            assert(self@ == (VmView { mem: font() + old(self)@.mem.skip(80), ..old(self)@ }));
        }
    }

    /// Copy a program into memory starting at the program start.
    /// A program longer than the remaining memory is rejected
    /// untouched, since loading it would write out of bounds.
    pub fn load_program_into_memory(&mut self, program: &[u8]) -> (r: Result<(), VmFault>)
        requires
            old(self).wf(),
        ensures
            final(self).wf(),
            program@.len() > MAX_PROGRAM_LEN ==> r == Err::<(), VmFault>(VmFault::ProgramTooLarge)
                && *final(self) == *old(self),
            program@.len() <= MAX_PROGRAM_LEN ==> r == Ok::<(), VmFault>(()) && final(self)@ == (
            VmView {
                mem: old(self)@.mem.subrange(0, PROGRAM_START as int) + program@ + old(
                    self,
                )@.mem.skip(PROGRAM_START + program@.len()),
                ..old(self)@
            }),
    {
        if program.len() > MAX_PROGRAM_LEN {
            return Err(VmFault::ProgramTooLarge);
        }
        let n = program.len();
        let mut j: usize = 0;
        while j < n
            invariant
                old(self).wf(),
                j <= n,
                n == program@.len(),
                n <= MAX_PROGRAM_LEN,
                self.memory@.len() == MEMORY_SIZE,
                forall|k: int|
                    0 <= k < PROGRAM_START ==> self.memory@[k] == old(self).memory@[k],
                forall|k: int| 0 <= k < j ==> self.memory@[PROGRAM_START + k] == program@[k],
                forall|k: int|
                    PROGRAM_START + j <= k < MEMORY_SIZE ==> self.memory@[k] == old(
                        self,
                    ).memory@[k],
                *self == (EmulatorContext { memory: self.memory, ..*old(self) }),
            decreases n - j,
        {
            self.memory[PROGRAM_START + j] = program[j];
            j += 1;
        }
        proof {
            assert(self.memory@ =~= old(self)@.mem.subrange(0, PROGRAM_START as int) + program@
                + old(self)@.mem.skip(PROGRAM_START + program@.len()));
        }
        Ok(())
    }

    /// Whether `p` is a lit display cell.
    fn display_contains(&self, p: Point) -> (r: bool)
        ensures
            r == self.display@.contains(p),
    {
        let mut idx: usize = 0;
        while idx < self.display.len()
            invariant
                idx <= self.display.len(),
                forall|j: int| 0 <= j < idx ==> self.display@[j] != p,
            decreases self.display.len() - idx,
        {
            if self.display[idx] == p {
                return true;
            }
            idx += 1;
        }
        false
    }

    /// XOR one cell: erase it if lit (reporting the collision), light
    /// it otherwise.
    fn display_toggle(&mut self, p: Point) -> (collided: bool)
        requires
            old(self).wf(),
        ensures
            final(self).wf(),
            collided == old(self)@.display.contains(p),
            final(self)@ == (VmView { display: toggled(old(self)@.display, p), ..old(self)@ }),
    {
        let mut idx: usize = 0;
        while idx < self.display.len()
            invariant
                old(self).wf(),
                idx <= self.display.len(),
                forall|j: int| 0 <= j < idx ==> self.display@[j] != p,
                *self == *old(self),
            decreases self.display.len() - idx,
        {
            if self.display[idx] == p {
                proof {
                    assert(self.display@.contains(p));
                    lemma_to_set_remove(self.display@, idx as int);
                }
                self.display.remove(idx);
                return true;
            }
            idx += 1;
        }
        proof {
            assert(!self.display@.contains(p));
            lemma_to_set_push(self.display@, p);
            assert forall|a: int, b: int|
                0 <= a < b < self.display@.push(p).len() implies self.display@.push(p)[a]
                != self.display@.push(p)[b] by {
                if b < self.display@.len() {
                    assert(self.display@[a] != self.display@[b]);
                } else {
                    assert(self.display@.push(p)[b] == p);
                    assert(self.display@.push(p)[a] == self.display@[a]);
                }
            }
        }
        self.display.push(p);
        false
    }

    /// The sprite draw: XOR the `n` rows at memory[I..] onto the
    /// display at (Vx, Vy), then set VF to whether any cell was erased.
    fn op_draw(&mut self, x: u8, y: u8, n: u8)
        requires
            old(self).wf(),
            x < 16,
            y < 16,
        ensures
            final(self).wf(),
            final(self)@ == (VmView {
                display: draw_sprite(
                    old(self)@.display,
                    old(self)@.mem,
                    old(self)@.i,
                    old(self)@.regs[x as int],
                    old(self)@.regs[y as int],
                    n,
                ).0,
                regs: old(self)@.regs.update(
                    15,
                    if draw_sprite(
                        old(self)@.display,
                        old(self)@.mem,
                        old(self)@.i,
                        old(self)@.regs[x as int],
                        old(self)@.regs[y as int],
                        n,
                    ).1 {
                        1u8
                    } else {
                        0u8
                    },
                ),
                ..old(self)@
            }),
    {
        let vx = self.registers[x as usize];
        let vy = self.registers[y as usize];
        let ghost total = draw_sprite(
            old(self)@.display,
            old(self)@.mem,
            old(self)@.i,
            vx,
            vy,
            n,
        );
        let mut collided = false;
        let mut row: u8 = 0;
        while row < n
            invariant
                self.wf(),
                row <= n,
                vx == old(self)@.regs[x as int],
                vy == old(self)@.regs[y as int],
                draw_rows(
                    self.display@.to_set(),
                    collided,
                    old(self)@.mem,
                    old(self)@.i,
                    vx,
                    vy,
                    row,
                    n,
                ) == total,
                self@ == (VmView { display: self@.display, ..old(self)@ }),
            decreases n - row,
        {
            let byte = self.memory[(self.i as usize + row as usize) % MEMORY_SIZE];
            let ghost pre_d = self.display@.to_set();
            let ghost pre_vf = collided;
            let ghost py = vy + row as int;
            let mut col: u8 = 0;
            while col < 8
                invariant
                    self.wf(),
                    col <= 8,
                    row < n,
                    py == vy + row as int,
                    byte == old(self)@.mem[(old(self)@.i + row) % (MEMORY_SIZE as int)],
                    vx == old(self)@.regs[x as int],
                    draw_row(self.display@.to_set(), collided, byte, vx, py, col) == draw_row(
                        pre_d,
                        pre_vf,
                        byte,
                        vx,
                        py,
                        0,
                    ),
                    self@ == (VmView { display: self@.display, ..old(self)@ }),
                decreases 8 - col,
            {
                let ghost d_before = self.display@.to_set();
                let ghost vf_before = collided;
                if byte & (0x80u8 >> col) != 0 {
                    let p = Point(vx as i32 + col as i32, vy as i32 + row as i32);
                    proof {
                        assert(p == sprite_point(vx, py, col));
                    }
                    let c = self.display_toggle(p);
                    if c {
                        collided = true;
                    }
                }
                proof {
                    assert(draw_row(d_before, vf_before, byte, vx, py, col) == draw_row(
                        self.display@.to_set(),
                        collided,
                        byte,
                        vx,
                        py,
                        (col + 1) as u8,
                    ));
                }
                col += 1;
            }
            proof {
                assert(draw_row(self.display@.to_set(), collided, byte, vx, py, 8) == (
                    self.display@.to_set(),
                    collided,
                ));
                assert(draw_rows(pre_d, pre_vf, old(self)@.mem, old(self)@.i, vx, vy, row, n)
                    == draw_rows(
                    self.display@.to_set(),
                    collided,
                    old(self)@.mem,
                    old(self)@.i,
                    vx,
                    vy,
                    (row + 1) as u8,
                    n,
                ));
            }
            row += 1;
        }
        proof {
            assert(draw_rows(
                self.display@.to_set(),
                collided,
                old(self)@.mem,
                old(self)@.i,
                vx,
                vy,
                n,
                n,
            ) == (self.display@.to_set(), collided));
        }
        self.registers[15] = if collided {
            1
        } else {
            0
        };
    }

    /// Store V0..=Vx at memory[I..], each address reduced modulo the
    /// memory size.
    fn op_store_regs(&mut self, x: u8)
        requires
            old(self).wf(),
            x < 16,
        ensures
            final(self).wf(),
            final(self)@ == (VmView {
                mem: store_regs_mem(old(self)@.mem, old(self)@.i, old(self)@.regs, 0, x),
                ..old(self)@
            }),
    {
        let mut j: usize = 0;
        while j <= x as usize
            invariant
                self.wf(),
                x < 16,
                j <= x as usize + 1,
                store_regs_mem(self.memory@, old(self)@.i, old(self)@.regs, j as int, x)
                    == store_regs_mem(old(self)@.mem, old(self)@.i, old(self)@.regs, 0, x),
                *self == (EmulatorContext { memory: self.memory, ..*old(self) }),
            decreases x as usize + 1 - j,
        {
            self.memory[(self.i as usize + j) % MEMORY_SIZE] = self.registers[j];
            j += 1;
        }
    }

    /// Load V0..=Vx from memory[I..], each address reduced modulo the
    /// memory size.
    fn op_load_regs(&mut self, x: u8)
        requires
            old(self).wf(),
            x < 16,
        ensures
            final(self).wf(),
            final(self)@ == (VmView {
                regs: load_regs_file(old(self)@.regs, old(self)@.i, old(self)@.mem, 0, x),
                ..old(self)@
            }),
    {
        let mut j: usize = 0;
        while j <= x as usize
            invariant
                self.wf(),
                x < 16,
                j <= x as usize + 1,
                load_regs_file(self.registers@, old(self)@.i, old(self)@.mem, j as int, x)
                    == load_regs_file(old(self)@.regs, old(self)@.i, old(self)@.mem, 0, x),
                *self == (EmulatorContext { registers: self.registers, ..*old(self) }),
            decreases x as usize + 1 - j,
        {
            self.registers[j] = self.memory[(self.i as usize + j) % MEMORY_SIZE];
            j += 1;
        }
    }

    /// Store the decimal digits of Vx at memory[I], [I+1], [I+2], each
    /// address reduced modulo the memory size.
    fn op_store_bcd(&mut self, x: u8)
        requires
            old(self).wf(),
            x < 16,
        ensures
            final(self).wf(),
            final(self)@ == (VmView {
                mem: bcd_mem(old(self)@.mem, old(self)@.i, old(self)@.regs[x as int]),
                ..old(self)@
            }),
    {
        let vx = self.registers[x as usize];
        self.memory[(self.i as usize) % MEMORY_SIZE] = vx / 100;
        self.memory[((self.i as usize) + 1) % MEMORY_SIZE] = (vx % 100) / 10;
        self.memory[((self.i as usize) + 2) % MEMORY_SIZE] = vx % 10;
    }

    /// Execute one decoded instruction on a state whose program
    /// counter has already been advanced past it; `pc0` is the address
    /// it was fetched from, restored by an unsatisfied key wait. The
    /// one fault, a return on an empty stack, leaves the program
    /// counter back at `pc0` and everything else untouched.
    #[verifier::rlimit(100)]
    fn dispatch(&mut self, pc0: u16, ins: Instr, rand: u8) -> (r: Result<(), VmFault>)
        requires
            old(self).wf(),
            instr_operand_bounds(ins),
        ensures
            final(self).wf(),
            match apply_instr(pc0, old(self)@, ins, rand) {
                Some(w) => r == Ok::<(), VmFault>(()) && final(self)@ == w,
                None => r == Err::<(), VmFault>(VmFault::EmptyStack) && final(self)@ == (VmView {
                    pc: pc0,
                    ..old(self)@
                }),
            },
    {
        match ins {
            Instr::ClearScreen => {
                self.display.clear();
                proof {
                    assert(self.display@.to_set() =~= Set::<Point>::empty());
                }
            },
            Instr::Return => {
                match self.stack.pop() {
                    Some(a) => {
                        self.pc = a;
                        proof {
                            assert(self.stack@ =~= old(self)@.stack.drop_last());
                        }
                    },
                    None => {
                        self.pc = pc0;
                        return Err(VmFault::EmptyStack);
                    },
                }
            },
            Instr::Jump { nnn } => {
                self.pc = nnn;
            },
            Instr::Call { nnn } => {
                let ret = self.pc;
                self.stack.push(ret);
                self.pc = nnn;
            },
            Instr::SkipEqImm { x, nn } => {
                if self.registers[x as usize] == nn {
                    self.pc = self.pc.wrapping_add(2);
                }
            },
            Instr::SkipNeImm { x, nn } => {
                if self.registers[x as usize] != nn {
                    self.pc = self.pc.wrapping_add(2);
                }
            },
            Instr::SkipEqReg { x, y } => {
                if self.registers[x as usize] == self.registers[y as usize] {
                    self.pc = self.pc.wrapping_add(2);
                }
            },
            Instr::SetImm { x, nn } => {
                self.registers[x as usize] = nn;
            },
            Instr::AddImm { x, nn } => {
                self.registers[x as usize] = self.registers[x as usize].wrapping_add(nn);
            },
            Instr::CopyReg { x, y } => {
                self.registers[x as usize] = self.registers[y as usize];
            },
            Instr::OrReg { x, y } => {
                self.registers[x as usize] = self.registers[x as usize] | self.registers[y
                    as usize];
                self.registers[15] = 0;
            },
            Instr::AndReg { x, y } => {
                self.registers[x as usize] = self.registers[x as usize] & self.registers[y
                    as usize];
                self.registers[15] = 0;
            },
            Instr::XorReg { x, y } => {
                self.registers[x as usize] = self.registers[x as usize] ^ self.registers[y
                    as usize];
                self.registers[15] = 0;
            },
            Instr::AddCarry { x, y } => {
                let sum = self.registers[x as usize] as u16 + self.registers[y as usize] as u16;
                self.registers[x as usize] = (sum % 256) as u8;
                self.registers[15] = if sum > 255 {
                    1
                } else {
                    0
                };
            },
            Instr::SubBorrow { x, y } => {
                self.registers[15] = if self.registers[x as usize] > self.registers[y as usize] {
                    1
                } else {
                    0
                };
                self.registers[x as usize] = self.registers[x as usize].wrapping_sub(
                    self.registers[y as usize],
                );
            },
            Instr::ShiftRight { x } => {
                self.registers[15] = self.registers[x as usize] & 1;
                self.registers[x as usize] = self.registers[x as usize] >> 1u8;
            },
            Instr::SubFrom { x, y } => {
                self.registers[15] = if self.registers[y as usize] > self.registers[x as usize] {
                    1
                } else {
                    0
                };
                self.registers[x as usize] = self.registers[y as usize].wrapping_sub(
                    self.registers[x as usize],
                );
            },
            Instr::ShiftLeft { x } => {
                self.registers[15] = self.registers[x as usize] >> 7u8;
                self.registers[x as usize] = self.registers[x as usize] << 1u8;
            },
            Instr::SkipNeReg { x, y } => {
                if self.registers[x as usize] != self.registers[y as usize] {
                    self.pc = self.pc.wrapping_add(2);
                }
            },
            Instr::SetIndex { nnn } => {
                self.i = nnn;
            },
            Instr::JumpPlusV0 { nnn } => {
                self.pc = nnn + (self.registers[0] as u16);
            },
            Instr::RandomMask { x, nn } => {
                self.registers[x as usize] = rand & nn;
            },
            Instr::DrawSprite { x, y, n } => {
                self.op_draw(x, y, n);
            },
            Instr::SkipKeyPressed { x } => {
                if self.keyboard.is_key_pressed(self.registers[x as usize]) {
                    self.pc = self.pc.wrapping_add(2);
                }
            },
            Instr::SkipKeyNotPressed { x } => {
                if !self.keyboard.is_key_pressed(self.registers[x as usize]) {
                    self.pc = self.pc.wrapping_add(2);
                }
            },
            Instr::ReadDelay { x } => {
                self.registers[x as usize] = self.delay_timer;
            },
            Instr::WaitKey { x } => {
                if self.keyboard.keys_pressed.len() == 0 {
                    self.pc = pc0;
                } else {
                    let k = self.keyboard.keys_pressed[0];
                    self.registers[x as usize] = k;
                }
            },
            Instr::SetDelay { x } => {
                self.delay_timer = self.registers[x as usize];
            },
            Instr::SetSound { x } => {
                self.sound_timer = self.registers[x as usize];
            },
            Instr::AddIndex { x } => {
                self.i = self.i.wrapping_add(self.registers[x as usize] as u16);
            },
            Instr::FontIndex { x } => {
                self.i = (self.registers[x as usize] as u16) * 5;
            },
            Instr::StoreBcd { x } => {
                self.op_store_bcd(x);
            },
            Instr::StoreRegs { x } => {
                self.op_store_regs(x);
            },
            Instr::LoadRegs { x } => {
                self.op_load_regs(x);
            },
            Instr::Nop => {},
        }
        Ok(())
    }

    /// One fetch/decode/execute step taking the byte the random
    /// instruction consumes as an argument: the step's entire effect
    /// is the model's `step_view` of that byte.
    pub fn execute_opcode_with(&mut self, rand: u8) -> (r: Result<(), VmFault>)
        requires
            old(self).wf(),
        ensures
            final(self).wf(),
            match step_view(old(self)@, rand) {
                Some(w) => r == Ok::<(), VmFault>(()) && final(self)@ == w,
                None => r == Err::<(), VmFault>(VmFault::EmptyStack) && final(self)@ == old(
                    self,
                )@,
            },
    {
        match self.state {
            EmulatorState::Paused => {
                return Ok(());
            },
            EmulatorState::Playing => {},
        }
        let pc0 = self.pc;
        let hi = self.memory[(pc0 as usize) % MEMORY_SIZE];
        let lo = self.memory[((pc0 as usize) + 1) % MEMORY_SIZE];
        let op = ((hi as u16) << 8u16) | (lo as u16);
        self.pc = pc0.wrapping_add(2);
        proof {
            assert(op == fetch_op(old(self)@));
            lemma_decode_operand_bounds(op);
        }
        let ins = decode(op);
        self.dispatch(pc0, ins, rand)
    }

    /// One fetch/decode/execute step, drawing the byte the random
    /// instruction consumes. Some byte explains the step; no caller
    /// can rely on which.
    pub fn execute_opcode(&mut self) -> (r: Result<(), VmFault>)
        requires
            old(self).wf(),
        ensures
            final(self).wf(),
            match r {
                Ok(_) => exists|b: u8| step_view(old(self)@, b) == Some(final(self)@),
                Err(f) => f == VmFault::EmptyStack && step_view(old(self)@, 0) == None::<VmView>
                    && final(self)@ == old(self)@,
            },
    {
        let b = random_byte();
        let r = self.execute_opcode_with(b);
        proof {
            if r is Ok {
                assert(step_view(old(self)@, b) == Some(self@));
            } else {
                assert(step_view(old(self)@, b) == None::<VmView>);
                assert(step_view(old(self)@, 0) == step_view(old(self)@, b));
            }
        }
        r
    }

    /// One frame: if playing, execute exactly ten steps, then tick the
    /// timers once. Some sequence of random bytes explains the frame;
    /// a fault stops the frame at the state the faulting step left,
    /// with the timers not ticked.
    #[verifier::rlimit(100)]
    pub fn cycle(&mut self) -> (r: Result<(), VmFault>)
        requires
            old(self).wf(),
        ensures
            final(self).wf(),
            old(self)@.state == EmulatorState::Paused ==> r == Ok::<(), VmFault>(())
                && *final(self) == *old(self),
            old(self)@.state == EmulatorState::Playing ==> match r {
                Ok(_) => exists|rs: Seq<u8>|
                    rs.len() == STEPS_PER_CYCLE && run_steps(old(self)@, rs).1 && final(self)@
                        == tick_timers(run_steps(old(self)@, rs).0),
                Err(f) => f == VmFault::EmptyStack && exists|rs: Seq<u8>|
                    rs.len() <= STEPS_PER_CYCLE && run_steps(old(self)@, rs) == (
                    final(self)@,
                    false,
                ),
            },
    {
        match self.state {
            EmulatorState::Paused => {
                return Ok(());
            },
            EmulatorState::Playing => {},
        }
        let ghost mut rs: Seq<u8> = Seq::empty();
        let mut k: usize = 0;
        while k < STEPS_PER_CYCLE
            invariant
                self.wf(),
                old(self)@.state == EmulatorState::Playing,
                k <= STEPS_PER_CYCLE,
                rs.len() == k,
                run_steps(old(self)@, rs) == (self@, true),
            decreases STEPS_PER_CYCLE - k,
        {
            let b = random_byte();
            proof {
                lemma_run_steps_snoc(old(self)@, rs, b);
            }
            match self.execute_opcode_with(b) {
                Ok(_) => {
                    proof {
                        rs = rs.push(b);
                    }
                },
                Err(f) => {
                    proof {
                        assert(run_steps(old(self)@, rs.push(b)) == (self@, false));
                        assert(rs.push(b).len() <= STEPS_PER_CYCLE);
                    }
                    return Err(f);
                },
            }
            k += 1;
        }
        self.update_timers();
        Ok(())
    }

    /// The per-frame timer tick: each timer counts down to zero and
    /// stays there.
    pub fn update_timers(&mut self)
        requires
            old(self).wf(),
        ensures
            final(self).wf(),
            final(self)@ == tick_timers(old(self)@),
    {
        if self.delay_timer > 0 {
            self.delay_timer = self.delay_timer - 1;
        }
        if self.sound_timer > 0 {
            self.sound_timer = self.sound_timer - 1;
        }
    }

    /// Flip between playing and paused; nothing else moves, so a
    /// paused machine resumes exactly where it stopped.
    pub fn toggle_pause(&mut self)
        requires
            old(self).wf(),
        ensures
            final(self).wf(),
            final(self)@ == (VmView {
                state: if old(self)@.state == EmulatorState::Playing {
                    EmulatorState::Paused
                } else {
                    EmulatorState::Playing
                },
                ..old(self)@
            }),
    {
        self.state = match self.state {
            EmulatorState::Playing => EmulatorState::Paused,
            EmulatorState::Paused => EmulatorState::Playing,
        };
    }
}

} // verus!
