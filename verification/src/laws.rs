//! The headline laws of the instruction set, proved once and for all
//! against the model: skip distances, 8-bit wrapping, pre-shift flag
//! semantics, BCD placement, the XOR nature of sprite drawing, the
//! wait-for-key stall, and the call/return round trip.

use vstd::prelude::*;
use vstd::arithmetic::div_mod::lemma_fundamental_div_mod;
use vstd::arithmetic::div_mod::lemma_fundamental_div_mod_converse;
use vstd::wrapping::u8_specs;
use vstd::wrapping::u16_specs;
use crate::model::MEMORY_SIZE;
use crate::model::Instr;
use crate::model::VmView;
use crate::model::fetch_op;
use crate::model::op_x;
use crate::model::op_y;
use crate::model::op_nn;
use crate::model::op_nnn;
use crate::model::spec_decode;
use crate::model::lemma_op_field_bounds;
use crate::model::step_view;
use crate::model::run_steps;
use crate::model::sprite_point;
use crate::model::toggled;
use crate::model::draw_row;
use crate::model::draw_rows;
use crate::model::draw_sprite;
use crate::types::EmulatorState;
use crate::types::Point;

verus! {

/// Whether the skip condition of a conditional-skip instruction holds
/// in state `v`.
pub open spec fn skip_taken(v: VmView, ins: Instr) -> bool {
    match ins {
        Instr::SkipEqImm { x, nn } => v.regs[x as int] == nn,
        Instr::SkipNeImm { x, nn } => v.regs[x as int] != nn,
        Instr::SkipEqReg { x, y } => v.regs[x as int] == v.regs[y as int],
        Instr::SkipNeReg { x, y } => v.regs[x as int] != v.regs[y as int],
        _ => false,
    }
}

/// A conditional skip advances the program counter by exactly four
/// (two for the fetch, two for the skip) when its condition holds, and
/// by exactly two when it does not; nothing else changes.
pub proof fn lemma_skip_semantics(v: VmView, rand: u8)
    requires
        v.state == EmulatorState::Playing,
        spec_decode(fetch_op(v)) is SkipEqImm || spec_decode(fetch_op(v)) is SkipNeImm
            || spec_decode(fetch_op(v)) is SkipEqReg || spec_decode(fetch_op(v)) is SkipNeReg,
        v.pc + 4 < 0x10000,
    ensures
        step_view(v, rand) == Some(
            VmView {
                pc: if skip_taken(v, spec_decode(fetch_op(v))) {
                    (v.pc + 4) as u16
                } else {
                    (v.pc + 2) as u16
                },
                ..v
            },
        ),
{
}

/// The wrapping byte operations are arithmetic modulo 256.
proof fn lemma_u8_wrap_mod(a: u8, b: u8)
    ensures
        u8_specs::wrapping_add(a, b) == (a + b) % 256,
        u8_specs::wrapping_sub(a, b) == (a - b + 256) % 256,
{
    if a + b > 255 {
        lemma_fundamental_div_mod_converse(a + b, 256, 1, a + b - 256);
    } else {
        lemma_fundamental_div_mod_converse(a + b, 256, 0, a + b);
    }
    if a >= b {
        lemma_fundamental_div_mod_converse(a - b + 256, 256, 1, a - b);
    } else {
        lemma_fundamental_div_mod_converse(a - b + 256, 256, 0, a - b + 256);
    }
}

/// The immediate add wraps at the 8-bit boundary and touches no other
/// register: in particular it has no flag effect.
pub proof fn lemma_add_imm_wraps(v: VmView, rand: u8)
    requires
        v.wf(),
        v.state == EmulatorState::Playing,
        spec_decode(fetch_op(v)) is AddImm,
    ensures
        step_view(v, rand) is Some,
        ({
            let x = op_x(fetch_op(v));
            let nn = op_nn(fetch_op(v));
            let w = step_view(v, rand).unwrap();
            &&& w.regs[x as int] == (v.regs[x as int] + nn) % 256
            &&& forall|j: int| 0 <= j < v.regs.len() && j != x ==> w.regs[j] == v.regs[j]
            &&& w == (VmView { pc: u16_specs::wrapping_add(v.pc, 2), regs: w.regs, ..v })
        }),
{
    lemma_op_field_bounds(fetch_op(v));
    let x = op_x(fetch_op(v));
    let nn = op_nn(fetch_op(v));
    lemma_u8_wrap_mod(v.regs[x as int], nn);
}

/// The register add wraps at the 8-bit boundary and reports the carry
/// in VF.
pub proof fn lemma_add_carry(v: VmView, rand: u8)
    requires
        v.wf(),
        v.state == EmulatorState::Playing,
        spec_decode(fetch_op(v)) is AddCarry,
    ensures
        step_view(v, rand) is Some,
        ({
            let x = op_x(fetch_op(v));
            let y = op_y(fetch_op(v));
            let sum = v.regs[x as int] + v.regs[y as int];
            let w = step_view(v, rand).unwrap();
            &&& w.regs[15] == if sum > 255 {
                1u8
            } else {
                0u8
            }
            &&& x != 15 ==> w.regs[x as int] == sum % 256
            &&& forall|j: int| 0 <= j < v.regs.len() && j != x && j != 15 ==> w.regs[j] == v.regs[j]
            &&& w == (VmView { pc: u16_specs::wrapping_add(v.pc, 2), regs: w.regs, ..v })
        }),
{
    lemma_op_field_bounds(fetch_op(v));
    let x = op_x(fetch_op(v));
    let y = op_y(fetch_op(v));
    let sum = v.regs[x as int] + v.regs[y as int];
    if sum > 255 {
        lemma_fundamental_div_mod_converse(sum, 256, 1, sum - 256);
    } else {
        lemma_fundamental_div_mod_converse(sum, 256, 0, sum);
    }
}

/// The register subtractions wrap at the 8-bit boundary and report the
/// no-borrow flag in VF.
pub proof fn lemma_sub_wraps(v: VmView, rand: u8)
    requires
        v.wf(),
        v.state == EmulatorState::Playing,
        spec_decode(fetch_op(v)) is SubBorrow || spec_decode(fetch_op(v)) is SubFrom,
        op_x(fetch_op(v)) != 15,
        op_y(fetch_op(v)) != 15,
    ensures
        step_view(v, rand) is Some,
        ({
            let x = op_x(fetch_op(v));
            let y = op_y(fetch_op(v));
            let vx = v.regs[x as int];
            let vy = v.regs[y as int];
            let w = step_view(v, rand).unwrap();
            &&& (spec_decode(fetch_op(v)) is SubBorrow ==> w.regs[x as int] == (vx - vy + 256) % 256
                && w.regs[15] == if vx > vy {
                1u8
            } else {
                0u8
            })
            &&& (spec_decode(fetch_op(v)) is SubFrom ==> w.regs[x as int] == (vy - vx + 256) % 256
                && w.regs[15] == if vy > vx {
                1u8
            } else {
                0u8
            })
            &&& forall|j: int| 0 <= j < v.regs.len() && j != x && j != 15 ==> w.regs[j] == v.regs[j]
            &&& w == (VmView { pc: u16_specs::wrapping_add(v.pc, 2), regs: w.regs, ..v })
        }),
{
    lemma_op_field_bounds(fetch_op(v));
    let x = op_x(fetch_op(v));
    let y = op_y(fetch_op(v));
    lemma_u8_wrap_mod(v.regs[x as int], v.regs[y as int]);
    lemma_u8_wrap_mod(v.regs[y as int], v.regs[x as int]);
}

/// The shifts set VF to the bit shifted out, taken before the shift,
/// not to anything about the shifted value.
pub proof fn lemma_shift_flags(v: VmView, rand: u8)
    requires
        v.wf(),
        v.state == EmulatorState::Playing,
        spec_decode(fetch_op(v)) is ShiftRight || spec_decode(fetch_op(v)) is ShiftLeft,
        op_x(fetch_op(v)) != 15,
    ensures
        step_view(v, rand) is Some,
        ({
            let x = op_x(fetch_op(v));
            let vx = v.regs[x as int];
            let w = step_view(v, rand).unwrap();
            &&& (spec_decode(fetch_op(v)) is ShiftRight ==> w.regs[15] == vx & 1 && w.regs[
                x as int
            ] == vx >> 1u8)
            &&& (spec_decode(fetch_op(v)) is ShiftLeft ==> w.regs[15] == vx >> 7u8 && w.regs[
                x as int
            ] == vx << 1u8)
            &&& forall|j: int| 0 <= j < v.regs.len() && j != x && j != 15 ==> w.regs[j] == v.regs[j]
            &&& w == (VmView { pc: u16_specs::wrapping_add(v.pc, 2), regs: w.regs, ..v })
        }),
{
    lemma_op_field_bounds(fetch_op(v));
}

/// Incrementing a non-negative number steps its remainder, wrapping at
/// the modulus.
proof fn lemma_mod_step(a: int)
    requires
        a >= 0,
    ensures
        (a + 1) % (MEMORY_SIZE as int) == if a % (MEMORY_SIZE as int) == 4095 {
            0
        } else {
            a % (MEMORY_SIZE as int) + 1
        },
{
    let m = MEMORY_SIZE as int;
    lemma_fundamental_div_mod(a, m);
    if a % m == 4095 {
        lemma_fundamental_div_mod_converse(a + 1, m, a / m + 1, 0);
    } else {
        lemma_fundamental_div_mod_converse(a + 1, m, a / m, a % m + 1);
    }
}

/// The BCD store writes the hundreds, tens and units digits of Vx to
/// the three cells at I, I+1, I+2 (addresses reduced modulo the memory
/// size) and touches nothing else.
pub proof fn lemma_store_bcd(v: VmView, rand: u8)
    requires
        v.wf(),
        v.state == EmulatorState::Playing,
        spec_decode(fetch_op(v)) is StoreBcd,
    ensures
        step_view(v, rand) is Some,
        ({
            let x = op_x(fetch_op(v));
            let vx = v.regs[x as int];
            let a0 = (v.i as int) % (MEMORY_SIZE as int);
            let a1 = (v.i + 1) % (MEMORY_SIZE as int);
            let a2 = (v.i + 2) % (MEMORY_SIZE as int);
            let w = step_view(v, rand).unwrap();
            &&& w.mem[a0] == vx / 100
            &&& w.mem[a1] == (vx % 100) / 10
            &&& w.mem[a2] == vx % 10
            &&& forall|a: int|
                0 <= a < MEMORY_SIZE && a != a0 && a != a1 && a != a2 ==> w.mem[a] == v.mem[a]
            &&& w == (VmView { pc: u16_specs::wrapping_add(v.pc, 2), mem: w.mem, ..v })
        }),
{
    lemma_op_field_bounds(fetch_op(v));
    let a0 = (v.i as int) % (MEMORY_SIZE as int);
    let a1 = (v.i + 1) % (MEMORY_SIZE as int);
    let a2 = (v.i + 2) % (MEMORY_SIZE as int);
    lemma_mod_step(v.i as int);
    lemma_mod_step(v.i + 1);
    assert(a0 != a1 && a1 != a2 && a0 != a2);
}

/// With no key pressed, a wait-for-key step leaves the machine exactly
/// as it was: the rewind cancels the fetch advance. Once a key is
/// pressed, the oldest press lands in Vx and the program counter
/// advances normally.
pub proof fn lemma_wait_key(v: VmView, rand: u8)
    requires
        v.state == EmulatorState::Playing,
        spec_decode(fetch_op(v)) is WaitKey,
    ensures
        v.keys.len() == 0 ==> step_view(v, rand) == Some(v),
        v.keys.len() > 0 ==> step_view(v, rand) == Some(
            VmView {
                pc: u16_specs::wrapping_add(v.pc, 2),
                regs: v.regs.update(op_x(fetch_op(v)) as int, v.keys[0]),
                ..v
            },
        ),
{
}

/// A machine stuck on a wait-for-key with no key pressed does not move
/// across any number of steps.
pub proof fn lemma_wait_key_stalls(v: VmView, rands: Seq<u8>)
    requires
        v.state == EmulatorState::Playing,
        spec_decode(fetch_op(v)) is WaitKey,
        v.keys.len() == 0,
    ensures
        run_steps(v, rands) == (v, true),
    decreases rands.len(),
{
    if rands.len() > 0 {
        lemma_wait_key(v, rands[0]);
        lemma_wait_key_stalls(v, rands.drop_first());
    }
}

/// The symmetric difference: cells lit in exactly one of the two sets.
pub open spec fn symdiff(a: Set<Point>, b: Set<Point>) -> Set<Point> {
    a.difference(b).union(b.difference(a))
}

/// Whether the two sets share a cell.
pub open spec fn overlaps(a: Set<Point>, b: Set<Point>) -> bool {
    exists|q: Point| a.contains(q) && b.contains(q)
}

/// The cells addressed by the set bits of one sprite row, from bit
/// `col` on.
pub open spec fn row_pixels(byte: u8, vx: u8, py: int, col: u8) -> Set<Point>
    decreases 8 - col,
{
    if col >= 8 {
        Set::empty()
    } else {
        let rest = row_pixels(byte, vx, py, (col + 1) as u8);
        if byte & (0x80u8 >> col) != 0 {
            rest.insert(sprite_point(vx, py, col))
        } else {
            rest
        }
    }
}

/// The cells addressed by the set bits of sprite rows `row..n`.
pub open spec fn sprite_pixels(mem: Seq<u8>, i: u16, vx: u8, vy: u8, row: u8, n: u8) -> Set<Point>
    decreases n - row,
{
    if row >= n {
        Set::empty()
    } else {
        row_pixels(mem[(i + row) % (MEMORY_SIZE as int)], vx, vy + row as int, 0).union(
            sprite_pixels(mem, i, vx, vy, (row + 1) as u8, n),
        )
    }
}

proof fn lemma_row_pixels_range(byte: u8, vx: u8, py: int, col: u8)
    ensures
        forall|q: Point|
            row_pixels(byte, vx, py, col).contains(q) ==> q.1 == py as i32 && vx + col <= q.0,
    decreases 8 - col,
{
    if col < 8 {
        lemma_row_pixels_range(byte, vx, py, (col + 1) as u8);
        let p = sprite_point(vx, py, col);
        let rest = row_pixels(byte, vx, py, (col + 1) as u8);
        assert(p.0 == vx + col);
        assert forall|q: Point| row_pixels(byte, vx, py, col).contains(q) implies q.1 == py as i32
            && vx + col <= q.0 by {
            if q != p {
                assert(rest.contains(q));
            }
        }
    }
}

proof fn lemma_sprite_pixels_range(mem: Seq<u8>, i: u16, vx: u8, vy: u8, row: u8, n: u8)
    requires
        0 <= vy + row,
    ensures
        forall|q: Point|
            sprite_pixels(mem, i, vx, vy, row, n).contains(q) ==> vy + row <= q.1,
    decreases n - row,
{
    if row < n {
        lemma_row_pixels_range(mem[(i + row) % (MEMORY_SIZE as int)], vx, vy + row as int, 0);
        lemma_sprite_pixels_range(mem, i, vx, vy, (row + 1) as u8, n);
        let rpix = row_pixels(mem[(i + row) % (MEMORY_SIZE as int)], vx, vy + row as int, 0);
        let rest = sprite_pixels(mem, i, vx, vy, (row + 1) as u8, n);
        assert forall|q: Point| sprite_pixels(mem, i, vx, vy, row, n).contains(q) implies vy + row
            <= q.1 by {
            if rpix.contains(q) {
                assert(q.1 == (vy + row as int) as i32);
            } else {
                assert(rest.contains(q));
            }
        }
    }
}

proof fn lemma_draw_row_char(d: Set<Point>, vf: bool, byte: u8, vx: u8, py: int, col: u8)
    ensures
        draw_row(d, vf, byte, vx, py, col).0 == symdiff(d, row_pixels(byte, vx, py, col)),
        draw_row(d, vf, byte, vx, py, col).1 == (vf || overlaps(row_pixels(byte, vx, py, col), d)),
    decreases 8 - col,
{
    let pix = row_pixels(byte, vx, py, col);
    if col >= 8 {
        assert(symdiff(d, pix) =~= d);
        assert(!overlaps(pix, d));
    } else {
        let rest = row_pixels(byte, vx, py, (col + 1) as u8);
        let on = byte & (0x80u8 >> col) != 0;
        let p = sprite_point(vx, py, col);
        lemma_row_pixels_range(byte, vx, py, (col + 1) as u8);
        if on {
            assert(!rest.contains(p));
            let d2 = toggled(d, p);
            let vf2 = vf || d.contains(p);
            lemma_draw_row_char(d2, vf2, byte, vx, py, (col + 1) as u8);
            assert(symdiff(d2, rest) =~= symdiff(d, pix));
            assert(overlaps(rest, d2) == overlaps(rest, d)) by {
                if overlaps(rest, d2) {
                    let q = choose|q: Point| rest.contains(q) && d2.contains(q);
                    assert(q != p && d.contains(q));
                    assert(rest.contains(q) && d.contains(q));
                }
                if overlaps(rest, d) {
                    let q = choose|q: Point| rest.contains(q) && d.contains(q);
                    assert(q != p && d2.contains(q));
                    assert(rest.contains(q) && d2.contains(q));
                }
            }
            assert(overlaps(pix, d) == (d.contains(p) || overlaps(rest, d))) by {
                if d.contains(p) {
                    assert(pix.contains(p) && d.contains(p));
                }
                if overlaps(rest, d) {
                    let q = choose|q: Point| rest.contains(q) && d.contains(q);
                    assert(pix.contains(q) && d.contains(q));
                }
                if overlaps(pix, d) && !d.contains(p) {
                    let q = choose|q: Point| pix.contains(q) && d.contains(q);
                    assert(q != p);
                    assert(rest.contains(q) && d.contains(q));
                }
            }
        } else {
            lemma_draw_row_char(d, vf, byte, vx, py, (col + 1) as u8);
        }
    }
}

proof fn lemma_draw_rows_char(
    d: Set<Point>,
    vf: bool,
    mem: Seq<u8>,
    i: u16,
    vx: u8,
    vy: u8,
    row: u8,
    n: u8,
)
    ensures
        draw_rows(d, vf, mem, i, vx, vy, row, n).0 == symdiff(
            d,
            sprite_pixels(mem, i, vx, vy, row, n),
        ),
        draw_rows(d, vf, mem, i, vx, vy, row, n).1 == (vf || overlaps(
            sprite_pixels(mem, i, vx, vy, row, n),
            d,
        )),
    decreases n - row,
{
    let pix = sprite_pixels(mem, i, vx, vy, row, n);
    if row >= n {
        assert(symdiff(d, pix) =~= d);
        assert(!overlaps(pix, d));
    } else {
        let byte = mem[(i + row) % (MEMORY_SIZE as int)];
        let rpix = row_pixels(byte, vx, vy + row as int, 0);
        let rest = sprite_pixels(mem, i, vx, vy, (row + 1) as u8, n);
        let r = draw_row(d, vf, byte, vx, vy + row as int, 0);
        lemma_draw_row_char(d, vf, byte, vx, vy + row as int, 0);
        lemma_draw_rows_char(r.0, r.1, mem, i, vx, vy, (row + 1) as u8, n);
        lemma_row_pixels_range(byte, vx, vy + row as int, 0);
        lemma_sprite_pixels_range(mem, i, vx, vy, (row + 1) as u8, n);
        assert(forall|q: Point| rpix.contains(q) ==> q.1 == vy + row);
        assert(forall|q: Point| #[trigger] rest.contains(q) ==> !rpix.contains(q));
        assert(symdiff(r.0, rest) =~= symdiff(d, pix));
        assert(overlaps(rest, r.0) == overlaps(rest, d)) by {
            if overlaps(rest, r.0) {
                let q = choose|q: Point| rest.contains(q) && r.0.contains(q);
                assert(!rpix.contains(q));
                assert(d.contains(q));
                assert(rest.contains(q) && d.contains(q));
            }
            if overlaps(rest, d) {
                let q = choose|q: Point| rest.contains(q) && d.contains(q);
                assert(!rpix.contains(q));
                assert(r.0.contains(q));
                assert(rest.contains(q) && r.0.contains(q));
            }
        }
        assert(overlaps(pix, d) == (overlaps(rpix, d) || overlaps(rest, d))) by {
            if overlaps(rpix, d) {
                let q = choose|q: Point| rpix.contains(q) && d.contains(q);
                assert(pix.contains(q) && d.contains(q));
            }
            if overlaps(rest, d) {
                let q = choose|q: Point| rest.contains(q) && d.contains(q);
                assert(pix.contains(q) && d.contains(q));
            }
            if overlaps(pix, d) {
                let q = choose|q: Point| pix.contains(q) && d.contains(q);
                if rpix.contains(q) {
                    assert(rpix.contains(q) && d.contains(q));
                } else {
                    assert(rest.contains(q) && d.contains(q));
                }
            }
        }
    }
}

/// Sprite drawing is an XOR: the new lit-cell set is the symmetric
/// difference of the old set and the sprite's pixel set, and the
/// collision flag reports exactly whether some sprite pixel was
/// already lit.
pub proof fn lemma_draw_sprite_toggles(
    d: Set<Point>,
    mem: Seq<u8>,
    i: u16,
    vx: u8,
    vy: u8,
    n: u8,
)
    ensures
        draw_sprite(d, mem, i, vx, vy, n).0 == symdiff(d, sprite_pixels(mem, i, vx, vy, 0, n)),
        draw_sprite(d, mem, i, vx, vy, n).1 == overlaps(sprite_pixels(mem, i, vx, vy, 0, n), d),
{
    lemma_draw_rows_char(d, false, mem, i, vx, vy, 0, n);
}

/// Drawing the same sprite twice at the same coordinates erases it:
/// the display returns to its pre-draw state, and the second draw
/// reports a collision exactly when the first draw lit some previously
/// unlit cell.
pub proof fn lemma_draw_twice_round_trip(
    d: Set<Point>,
    mem: Seq<u8>,
    i: u16,
    vx: u8,
    vy: u8,
    n: u8,
)
    ensures
        ({
            let pix = sprite_pixels(mem, i, vx, vy, 0, n);
            let first = draw_sprite(d, mem, i, vx, vy, n);
            let second = draw_sprite(first.0, mem, i, vx, vy, n);
            &&& second.0 == d
            &&& second.1 == exists|q: Point| pix.contains(q) && !d.contains(q)
        }),
{
    let pix = sprite_pixels(mem, i, vx, vy, 0, n);
    let first = draw_sprite(d, mem, i, vx, vy, n);
    lemma_draw_sprite_toggles(d, mem, i, vx, vy, n);
    lemma_draw_sprite_toggles(first.0, mem, i, vx, vy, n);
    assert(symdiff(symdiff(d, pix), pix) =~= d);
    assert(overlaps(pix, symdiff(d, pix)) == (exists|q: Point| pix.contains(q) && !d.contains(q)))
        by {
        if overlaps(pix, symdiff(d, pix)) {
            let q = choose|q: Point| pix.contains(q) && symdiff(d, pix).contains(q);
            assert(!d.contains(q));
            assert(pix.contains(q) && !d.contains(q));
        }
        if exists|q: Point| pix.contains(q) && !d.contains(q) {
            let q = choose|q: Point| pix.contains(q) && !d.contains(q);
            assert(symdiff(d, pix).contains(q));
            assert(pix.contains(q) && symdiff(d, pix).contains(q));
        }
    }
}

/// A call pushes the address of the following instruction and jumps;
/// the matching return, executed from any later state that has
/// preserved the stack, comes back to exactly that following
/// instruction and pops what the call pushed.
pub proof fn lemma_call_return_round_trip(v: VmView, w: VmView, r1: u8, r2: u8)
    requires
        v.state == EmulatorState::Playing,
        spec_decode(fetch_op(v)) is Call,
        v.pc + 2 < 0x10000,
        w.state == EmulatorState::Playing,
        spec_decode(fetch_op(w)) is Return,
        w.stack == step_view(v, r1).unwrap().stack,
    ensures
        step_view(v, r1) == Some(
            VmView {
                pc: op_nnn(fetch_op(v)),
                stack: v.stack.push((v.pc + 2) as u16),
                ..v
            },
        ),
        step_view(w, r2) == Some(VmView { pc: (v.pc + 2) as u16, stack: v.stack, ..w }),
{
    assert(w.stack == v.stack.push((v.pc + 2) as u16));
    assert(w.stack.last() == (v.pc + 2) as u16);
    assert(w.stack.drop_last() =~= v.stack);
}

} // verus!
