//! General properties of the interpreter, stated over the machine model and
//! proved from the specification of the step function.

use vstd::prelude::*;
use vstd::arithmetic::div_mod::lemma_mod_add_multiples_vanish;
use vstd::arithmetic::div_mod::lemma_small_mod;

use crate::draw::covered;
use crate::draw::covered_before;
use crate::draw::spec_collision;
use crate::draw::spec_draw;
use crate::draw::sprite_bit;
use crate::draw::target_cell;
use crate::state::EmuState;
use crate::state::FONTSET_SIZE;
use crate::state::NUM_KEYS;
use crate::state::NUM_REGS;
use crate::state::RAM_SIZE;
use crate::state::STACK_SIZE;
use crate::state::START_ADDR;
use crate::state::glyph_table;
use crate::step::first_key;
use crate::step::imm_of;
use crate::step::lemma_first_key_from;
use crate::step::low_byte;
use crate::step::nib1;
use crate::step::nib2;
use crate::step::nib3;
use crate::step::nib4;
use crate::step::opcode_at;
use crate::step::spec_exec;
use crate::step::spec_step;
use crate::step::step_ok;

verus! {

/// Law: the add-with-carry opcode leaves `(a + b) mod 256` in register x
/// and sets the flag register to 1 exactly when `a + b >= 256`, for all
/// 8-bit values a and b. (With x = 15 the flag write overwrites the sum,
/// so the flag register itself is excluded as a target.)
pub proof fn lemma_add_carry(m: EmuState, op: u16, rnd: u8)
    requires
        m.wf(),
        nib1(op) == 0x8,
        nib4(op) == 0x4,
        nib2(op) != 15,
    ensures
        spec_exec(m, op, rnd).v[nib2(op)] == (m.v[nib2(op)] + m.v[nib3(op)]) % 256,
        spec_exec(m, op, rnd).v[15] == (if m.v[nib2(op)] + m.v[nib3(op)] >= 256 {
            1u8
        } else {
            0u8
        }),
{
}

/// Law: the subtract-with-borrow opcode leaves `(a - b) mod 256` in
/// register x and sets the flag register to 0 exactly when `a < b` (the
/// inverted-borrow convention), for all 8-bit values a and b.
pub proof fn lemma_sub_borrow(m: EmuState, op: u16, rnd: u8)
    requires
        m.wf(),
        nib1(op) == 0x8,
        nib4(op) == 0x5,
        nib2(op) != 15,
    ensures
        spec_exec(m, op, rnd).v[nib2(op)] == (m.v[nib2(op)] - m.v[nib3(op)]) % 256,
        spec_exec(m, op, rnd).v[15] == (if m.v[nib2(op)] < m.v[nib3(op)] {
            0u8
        } else {
            1u8
        }),
{
}

/// Law: the shift-right opcode's flag is the low bit that was shifted out,
/// never the post-shift value, and register x becomes its old value halved.
pub proof fn lemma_shift_right_flag(m: EmuState, op: u16, rnd: u8)
    requires
        m.wf(),
        nib1(op) == 0x8,
        nib4(op) == 0x6,
        nib2(op) != 15,
    ensures
        spec_exec(m, op, rnd).v[15] == m.v[nib2(op)] as int % 2,
        spec_exec(m, op, rnd).v[nib2(op)] == m.v[nib2(op)] as int / 2,
{
}

/// Law: the shift-left opcode's flag is the high bit that was shifted out,
/// never the post-shift value, and register x becomes its old value doubled
/// modulo 256.
pub proof fn lemma_shift_left_flag(m: EmuState, op: u16, rnd: u8)
    requires
        m.wf(),
        nib1(op) == 0x8,
        nib4(op) == 0xE,
        nib2(op) != 15,
    ensures
        spec_exec(m, op, rnd).v[15] == m.v[nib2(op)] as int / 128,
        spec_exec(m, op, rnd).v[nib2(op)] == (m.v[nib2(op)] * 2) % 256,
{
}

/// Drawing does not change the sprite source, the coordinates (when they
/// are not the flag register) or the cells' coverage; only the frame buffer
/// and the flag register move.
proof fn lemma_draw_keeps_cover(m: EmuState, x: int, y: int, n: int, j: int)
    requires
        m.wf(),
        0 <= x < 16,
        0 <= y < 16,
        x != 15,
        y != 15,
    ensures
        covered(spec_draw(m, x, y, n), x, y, n, j) == covered(m, x, y, n, j),
{
    let m1 = spec_draw(m, x, y, n);
    assert(m1.v[x] == m.v[x]);
    assert(m1.v[y] == m.v[y]);
    if covered_before(m1, x, y, n, 0, j) {
        let (row, col) = choose|row: int, col: int|
            0 <= row && 0 <= col < 8 && (row < n || (row == n && col < 0))
                && sprite_bit(m1.ram[m1.ireg + row], col)
                && target_cell(m1.v[x], m1.v[y], row, col) == j;
        assert(sprite_bit(m.ram[m.ireg + row], col));
        assert(covered_before(m, x, y, n, 0, j));
    }
    if covered_before(m, x, y, n, 0, j) {
        let (row, col) = choose|row: int, col: int|
            0 <= row && 0 <= col < 8 && (row < n || (row == n && col < 0))
                && sprite_bit(m.ram[m.ireg + row], col)
                && target_cell(m.v[x], m.v[y], row, col) == j;
        assert(sprite_bit(m1.ram[m1.ireg + row], col));
        assert(covered_before(m1, x, y, n, 0, j));
    }
}

/// Law: the draw opcode is an involution per bit. Drawing the identical
/// sprite at the identical location twice in succession restores the frame
/// buffer exactly, and the second draw's collision flag is 1 precisely when
/// some set sprite pixel lands on a cell that was dark before the first
/// draw (those are the cells the first draw lit and the second turns back
/// off).
pub proof fn lemma_draw_involution(m: EmuState, x: int, y: int, n: int)
    requires
        m.wf(),
        0 <= x < 16,
        0 <= y < 16,
        x != 15,
        y != 15,
        0 <= n <= 15,
    ensures
        spec_draw(spec_draw(m, x, y, n), x, y, n).screen =~= m.screen,
        spec_draw(spec_draw(m, x, y, n), x, y, n).v[15] == 1 <==> exists|row: int, col: int|
            0 <= row < n && 0 <= col < 8 && sprite_bit(m.ram[m.ireg + row], col)
                && !m.screen[target_cell(m.v[x], m.v[y], row, col)],
{
    let m1 = spec_draw(m, x, y, n);
    let m2 = spec_draw(m1, x, y, n);
    assert forall|j: int| 0 <= j < m.screen.len() implies m2.screen[j] == m.screen[j] by {
        lemma_draw_keeps_cover(m, x, y, n, j);
    }
    // the second draw's collision flag
    if spec_collision(m1, x, y, n) {
        let (row, col) = choose|row: int, col: int|
            0 <= row && 0 <= col < 8 && (row < n || (row == n && col < 0))
                && sprite_bit(m1.ram[m1.ireg + row], col)
                && m1.screen[target_cell(m1.v[x], m1.v[y], row, col)];
        let j = target_cell(m.v[x], m.v[y], row, col);
        assert(0 <= j < m.screen.len());
        assert(covered(m, x, y, n, j));
        assert(m1.screen[j] == !m.screen[j]);
        assert(sprite_bit(m.ram[m.ireg + row], col) && !m.screen[j]);
    }
    if exists|row: int, col: int|
        0 <= row < n && 0 <= col < 8 && sprite_bit(m.ram[m.ireg + row], col)
            && !m.screen[target_cell(m.v[x], m.v[y], row, col)] {
        let (row, col) = choose|row: int, col: int|
            0 <= row < n && 0 <= col < 8 && sprite_bit(m.ram[m.ireg + row], col)
                && !m.screen[target_cell(m.v[x], m.v[y], row, col)];
        let j = target_cell(m.v[x], m.v[y], row, col);
        assert(0 <= j < m.screen.len());
        assert(covered(m, x, y, n, j));
        assert(m1.screen[j]);
        assert(sprite_bit(m1.ram[m1.ireg + row], col)
            && m1.screen[target_cell(m1.v[x], m1.v[y], row, col)]);
        assert(spec_collision(m1, x, y, n));
    }
}

/// Law: coordinates wrap around the screen edge instead of clipping. A
/// sprite whose origin column is the last screen column (63) puts its
/// pixel at sprite column `col >= 1` into screen column `col - 1`.
pub proof fn lemma_draw_wraps(xc: u8, yc: u8, row: int, col: int)
    requires
        xc == 63,
        1 <= col < 8,
        0 <= row,
    ensures
        target_cell(xc, yc, row, col) == (col - 1) + 64 * ((yc + row) % 32),
{
    lemma_mod_add_multiples_vanish(col - 1, 64);
    lemma_small_mod((col - 1) as nat, 64);
}

/// Law: a freshly constructed machine (and so also one after `reset`, which
/// yields the identical state) has the glyph table in the first 80 memory
/// bytes, zeroes everywhere else, the program counter at the start address,
/// and cleared registers, stack, keys, frame buffer and timers.
pub proof fn lemma_initial_state()
    ensures
        EmuState::initial().wf(),
        EmuState::initial().pc == START_ADDR,
        EmuState::initial().ireg == 0,
        EmuState::initial().sp == 0,
        EmuState::initial().dt == 0,
        EmuState::initial().st == 0,
        forall|i: int|
            0 <= i < FONTSET_SIZE ==> EmuState::initial().ram[i] == glyph_table()[i],
        forall|i: int| FONTSET_SIZE <= i < RAM_SIZE ==> EmuState::initial().ram[i] == 0,
        forall|i: int| 0 <= i < NUM_REGS ==> EmuState::initial().v[i] == 0,
        forall|i: int| 0 <= i < STACK_SIZE ==> EmuState::initial().stack[i] == 0,
        forall|i: int| 0 <= i < NUM_KEYS ==> !EmuState::initial().keys[i],
        forall|i: int|
            0 <= i < EmuState::initial().screen.len() ==> !EmuState::initial().screen[i],
{
}

/// Law: the blocking key wait spends the step without advancing when no key
/// is pressed (fetch moves the program counter forward by 2 and the handler
/// rewinds it by 2), and when keys are pressed it advances normally and
/// loads the lowest pressed key index into register x.
pub proof fn lemma_wait_key(m: EmuState, rnd: u8)
    requires
        m.wf(),
        step_ok(m),
        nib1(opcode_at(m)) == 0xF,
        low_byte(opcode_at(m)) == 0x0A,
    ensures
        (forall|k: int| 0 <= k < NUM_KEYS ==> !m.keys[k]) ==> spec_step(m, rnd).pc == m.pc
            && spec_step(m, rnd).v == m.v,
        (exists|k: int| 0 <= k < NUM_KEYS && m.keys[k]) ==> {
            &&& spec_step(m, rnd).pc == m.pc + 2
            &&& spec_step(m, rnd).v[nib2(opcode_at(m))] == first_key(m.keys)
            &&& m.keys[first_key(m.keys)]
            &&& forall|k: int| 0 <= k < first_key(m.keys) ==> !m.keys[k]
        },
{
    lemma_first_key_from(m.keys, 0);
    if forall|k: int| 0 <= k < NUM_KEYS ==> !m.keys[k] {
        assert(first_key(m.keys) == NUM_KEYS);
    }
    if exists|k: int| 0 <= k < NUM_KEYS && m.keys[k] {
        let k = choose|k: int| 0 <= k < NUM_KEYS && m.keys[k];
        if first_key(m.keys) == NUM_KEYS {
            assert(!m.keys[k]);
        }
        assert(first_key(m.keys) < NUM_KEYS);
    }
}

/// Law: a call followed immediately by a return restores the program
/// counter to the instruction address just after the call, and leaves the
/// stack depth as it was, for any legal target address.
pub proof fn lemma_call_return(m: EmuState, nnn: u16, r1: u8, r2: u8)
    requires
        m.wf(),
        m.pc + 1 < RAM_SIZE,
        m.sp < STACK_SIZE,
        opcode_at(m) == 0x2000 + nnn,
        nnn + 1 < RAM_SIZE,
        m.ram[nnn as int] == 0x00,
        m.ram[nnn + 1] == 0xEE,
    ensures
        spec_step(spec_step(m, r1), r2).pc == m.pc + 2,
        spec_step(spec_step(m, r1), r2).sp == m.sp,
{
    let m1 = spec_step(m, r1);
    assert(nib1(opcode_at(m)) == 0x2);
    assert(m1.pc == nnn);
    assert(m1.stack[m.sp as int] == m.pc + 2);
    assert(m1.sp == m.sp + 1);
    assert(opcode_at(m1) == 0x00EE);
    let m2 = spec_step(m1, r2);
    assert(m2.pc == m1.stack[m1.sp - 1]);
}

/// Whether the conditional-skip opcode at the program counter would take
/// its skip: family 3 skips when register x equals the immediate, family 4
/// when it differs, families 5 and 9 when registers x and y are equal.
pub open spec fn skip_taken(m: EmuState) -> bool {
    let op = opcode_at(m);
    if nib1(op) == 0x3 {
        m.v[nib2(op)] == imm_of(op)
    } else if nib1(op) == 0x4 {
        m.v[nib2(op)] != imm_of(op)
    } else {
        m.v[nib2(op)] == m.v[nib3(op)]
    }
}

/// Law: the conditional skip opcodes advance the program counter by 4 in
/// total (fetch plus skip) exactly when their condition holds, and by the
/// normal 2 otherwise, and change nothing else.
pub proof fn lemma_skip_exact(m: EmuState, rnd: u8)
    requires
        m.wf(),
        step_ok(m),
        nib1(opcode_at(m)) == 0x3 || nib1(opcode_at(m)) == 0x4 || nib1(opcode_at(m)) == 0x5
            || nib1(opcode_at(m)) == 0x9,
    ensures
        spec_step(m, rnd).pc == (if skip_taken(m) {
            m.pc + 4
        } else {
            m.pc + 2
        }),
        spec_step(m, rnd).v == m.v,
        spec_step(m, rnd).ram == m.ram,
        spec_step(m, rnd).screen == m.screen,
        spec_step(m, rnd).sp == m.sp,
{
}

} // verus!
