//! The interpreter: fetch, decode, execute. The semantics of every opcode is
//! given by the specification function `spec_exec`, stated over the machine
//! model, and the executable interpreter is proved to match it exactly.

use vstd::prelude::*;
use vstd::arithmetic::div_mod::lemma_mod_add_multiples_vanish;

use crate::draw::spec_draw;
use crate::state::Emu;
use crate::state::EmuState;
use crate::state::NUM_KEYS;
use crate::state::RAM_SIZE;
use crate::state::STACK_SIZE;
use crate::state::spec_pop;
use crate::state::spec_push;

verus! {

/// The highest nibble of an opcode: the instruction family.
pub open spec fn nib1(op: u16) -> int {
    op as int / 0x1000
}

/// The second nibble: usually a register index, named x.
pub open spec fn nib2(op: u16) -> int {
    (op as int / 0x100) % 16
}

/// The third nibble: usually a register index, named y.
pub open spec fn nib3(op: u16) -> int {
    (op as int / 16) % 16
}

/// The lowest nibble.
pub open spec fn nib4(op: u16) -> int {
    op as int % 16
}

/// The low 12 bits: an absolute address immediate.
pub open spec fn addr_of(op: u16) -> u16 {
    (op as int % 0x1000) as u16
}

/// The low byte: an 8-bit immediate.
pub open spec fn imm_of(op: u16) -> u8 {
    (op as int % 0x100) as u8
}

/// The low byte as an integer, for pattern discrimination.
pub open spec fn low_byte(op: u16) -> int {
    op as int % 0x100
}

/// The lowest pressed key index, scanning from key 0 upwards; 16 when no
/// key is pressed.
pub open spec fn first_key_from(keys: Seq<bool>, i: int) -> int
    decreases NUM_KEYS - i,
{
    if i >= NUM_KEYS {
        NUM_KEYS as int
    } else if keys[i] {
        i
    } else {
        first_key_from(keys, i + 1)
    }
}

/// The lowest pressed key index; 16 when no key is pressed.
pub open spec fn first_key(keys: Seq<bool>) -> int {
    first_key_from(keys, 0)
}

/// Advancing past the next instruction: the skip taken by the conditional
/// skip opcodes.
pub open spec fn spec_skip(m: EmuState) -> EmuState {
    EmuState { pc: (m.pc + 2) as u16, ..m }
}

/// The blocking key wait: if some key is pressed the lowest pressed index
/// lands in register x; otherwise the program counter rewinds by 2 so the
/// same instruction re-executes on the next step.
pub open spec fn spec_wait_key(m: EmuState, x: int) -> EmuState {
    if first_key(m.keys) < NUM_KEYS {
        EmuState { v: m.v.update(x, first_key(m.keys) as u8), ..m }
    } else {
        EmuState { pc: (m.pc - 2) as u16, ..m }
    }
}

/// Memory after the binary-coded-decimal opcode: the hundreds, tens and
/// ones digits of register x land at addresses ireg, ireg+1, ireg+2.
pub open spec fn spec_bcd(m: EmuState, x: int) -> Seq<u8> {
    m.ram.update(m.ireg as int, (m.v[x] as int / 100) as u8).update(
        m.ireg + 1,
        ((m.v[x] as int / 10) % 10) as u8,
    ).update(m.ireg + 2, (m.v[x] as int % 10) as u8)
}

/// Memory after the register-store opcode: registers 0 through x land at
/// addresses ireg through ireg+x.
pub open spec fn spec_store_regs(m: EmuState, x: int) -> Seq<u8> {
    Seq::new(
        m.ram.len(),
        |j: int| if m.ireg <= j <= m.ireg + x { m.v[j - m.ireg] } else { m.ram[j] },
    )
}

/// Registers after the register-load opcode: registers 0 through x are
/// filled from addresses ireg through ireg+x.
pub open spec fn spec_load_regs(m: EmuState, x: int) -> Seq<u8> {
    Seq::new(m.v.len(), |j: int| if 0 <= j <= x { m.ram[m.ireg + j] } else { m.v[j] })
}

/// Whether the opcode is one of the 35 recognized instruction forms. Any
/// other bit pattern is a program error and fatal by design.
pub open spec fn recognized(op: u16) -> bool {
    ||| op == 0x0000
    ||| op == 0x00E0
    ||| op == 0x00EE
    ||| nib1(op) == 0x1
    ||| nib1(op) == 0x2
    ||| nib1(op) == 0x3
    ||| nib1(op) == 0x4
    ||| (nib1(op) == 0x5 && nib4(op) == 0x0)
    ||| nib1(op) == 0x6
    ||| nib1(op) == 0x7
    ||| (nib1(op) == 0x8 && (nib4(op) <= 0x7 || nib4(op) == 0xE))
    ||| (nib1(op) == 0x9 && nib4(op) == 0x0)
    ||| nib1(op) == 0xA
    ||| nib1(op) == 0xB
    ||| nib1(op) == 0xC
    ||| nib1(op) == 0xD
    ||| (nib1(op) == 0xE && (low_byte(op) == 0x9E || low_byte(op) == 0xA1))
    ||| (nib1(op) == 0xF && (low_byte(op) == 0x07 || low_byte(op) == 0x0A || low_byte(op) == 0x15
        || low_byte(op) == 0x18 || low_byte(op) == 0x1E || low_byte(op) == 0x29 || low_byte(op)
        == 0x33 || low_byte(op) == 0x55 || low_byte(op) == 0x65))
}

/// The conditions under which one already-fetched opcode executes without a
/// contract violation: the opcode is recognized, the call stack neither
/// overflows nor underflows, every memory access stays in bounds, and a key
/// lookup uses a key index below 16.
pub open spec fn exec_ok(m: EmuState, op: u16) -> bool {
    &&& recognized(op)
    &&& (op == 0x00EE ==> m.sp >= 1)
    &&& (nib1(op) == 0x2 ==> m.sp < STACK_SIZE)
    &&& ((nib1(op) == 0x3 || nib1(op) == 0x4 || nib1(op) == 0x5 || nib1(op) == 0x9 || nib1(op)
        == 0xE) ==> m.pc + 2 <= u16::MAX)
    &&& (nib1(op) == 0xD ==> m.ireg + nib4(op) <= RAM_SIZE)
    &&& (nib1(op) == 0xE ==> m.v[nib2(op)] < NUM_KEYS)
    &&& (nib1(op) == 0xF && low_byte(op) == 0x0A && first_key(m.keys) >= NUM_KEYS ==> m.pc >= 2)
    &&& (nib1(op) == 0xF && low_byte(op) == 0x33 ==> m.ireg + 2 < RAM_SIZE)
    &&& (nib1(op) == 0xF && (low_byte(op) == 0x55 || low_byte(op) == 0x65) ==> m.ireg + nib2(op)
        < RAM_SIZE)
}

/// The semantics of one already-fetched opcode on machine `m`. The program
/// counter in `m` already points past the opcode. `rnd` is the byte the
/// random-mask opcode consumes; every other opcode ignores it.
pub open spec fn spec_exec(m: EmuState, op: u16, rnd: u8) -> EmuState {
    let x = nib2(op);
    let y = nib3(op);
    let nnn = addr_of(op);
    let nn = imm_of(op);
    if op == 0x0000 {
        m
    } else if op == 0x00E0 {
        EmuState { screen: Seq::new(m.screen.len(), |j: int| false), ..m }
    } else if op == 0x00EE {
        EmuState { pc: m.stack[m.sp - 1], ..spec_pop(m) }
    } else if nib1(op) == 0x1 {
        EmuState { pc: nnn, ..m }
    } else if nib1(op) == 0x2 {
        EmuState { pc: nnn, ..spec_push(m, m.pc) }
    } else if nib1(op) == 0x3 {
        if m.v[x] == nn {
            spec_skip(m)
        } else {
            m
        }
    } else if nib1(op) == 0x4 {
        if m.v[x] != nn {
            spec_skip(m)
        } else {
            m
        }
    } else if nib1(op) == 0x5 && nib4(op) == 0x0 {
        if m.v[x] == m.v[y] {
            spec_skip(m)
        } else {
            m
        }
    } else if nib1(op) == 0x6 {
        EmuState { v: m.v.update(x, nn), ..m }
    } else if nib1(op) == 0x7 {
        EmuState { v: m.v.update(x, ((m.v[x] + nn) % 256) as u8), ..m }
    } else if nib1(op) == 0x8 && nib4(op) == 0x0 {
        EmuState { v: m.v.update(x, m.v[y]), ..m }
    } else if nib1(op) == 0x8 && nib4(op) == 0x1 {
        EmuState { v: m.v.update(x, m.v[x] | m.v[y]), ..m }
    } else if nib1(op) == 0x8 && nib4(op) == 0x2 {
        EmuState { v: m.v.update(x, m.v[x] & m.v[y]), ..m }
    } else if nib1(op) == 0x8 && nib4(op) == 0x3 {
        EmuState { v: m.v.update(x, m.v[x] ^ m.v[y]), ..m }
    } else if nib1(op) == 0x8 && nib4(op) == 0x4 {
        EmuState {
            v: m.v.update(x, ((m.v[x] + m.v[y]) % 256) as u8).update(
                15,
                if m.v[x] + m.v[y] >= 256 { 1u8 } else { 0u8 },
            ),
            ..m
        }
    } else if nib1(op) == 0x8 && nib4(op) == 0x5 {
        EmuState {
            v: m.v.update(x, ((m.v[x] - m.v[y]) % 256) as u8).update(
                15,
                if m.v[x] < m.v[y] { 0u8 } else { 1u8 },
            ),
            ..m
        }
    } else if nib1(op) == 0x8 && nib4(op) == 0x6 {
        let v1 = m.v.update(15, (m.v[x] % 2) as u8);
        EmuState { v: v1.update(x, (v1[x] / 2) as u8), ..m }
    } else if nib1(op) == 0x8 && nib4(op) == 0x7 {
        EmuState {
            v: m.v.update(x, ((m.v[y] - m.v[x]) % 256) as u8).update(
                15,
                if m.v[y] < m.v[x] { 0u8 } else { 1u8 },
            ),
            ..m
        }
    } else if nib1(op) == 0x8 && nib4(op) == 0xE {
        let v1 = m.v.update(15, (m.v[x] / 128) as u8);
        EmuState { v: v1.update(x, ((v1[x] * 2) % 256) as u8), ..m }
    } else if nib1(op) == 0x9 && nib4(op) == 0x0 {
        // in this design the 9 family skips when the registers are equal,
        // exactly like the 5 family
        if m.v[x] == m.v[y] {
            spec_skip(m)
        } else {
            m
        }
    } else if nib1(op) == 0xA {
        EmuState { ireg: nnn, ..m }
    } else if nib1(op) == 0xB {
        EmuState { pc: (nnn + m.v[0]) as u16, ..m }
    } else if nib1(op) == 0xC {
        EmuState { v: m.v.update(x, rnd & nn), ..m }
    } else if nib1(op) == 0xD {
        spec_draw(m, x, y, nib4(op))
    } else if nib1(op) == 0xE && low_byte(op) == 0x9E {
        if m.keys[m.v[x] as int] {
            spec_skip(m)
        } else {
            m
        }
    } else if nib1(op) == 0xE && low_byte(op) == 0xA1 {
        if !m.keys[m.v[x] as int] {
            spec_skip(m)
        } else {
            m
        }
    } else if nib1(op) == 0xF && low_byte(op) == 0x07 {
        EmuState { v: m.v.update(x, m.dt), ..m }
    } else if nib1(op) == 0xF && low_byte(op) == 0x0A {
        spec_wait_key(m, x)
    } else if nib1(op) == 0xF && low_byte(op) == 0x15 {
        EmuState { dt: m.v[x], ..m }
    } else if nib1(op) == 0xF && low_byte(op) == 0x18 {
        EmuState { st: m.v[x], ..m }
    } else if nib1(op) == 0xF && low_byte(op) == 0x1E {
        EmuState { ireg: ((m.ireg + m.v[x]) % 0x10000) as u16, ..m }
    } else if nib1(op) == 0xF && low_byte(op) == 0x29 {
        EmuState { ireg: (m.v[x] * 5) as u16, ..m }
    } else if nib1(op) == 0xF && low_byte(op) == 0x33 {
        EmuState { ram: spec_bcd(m, x), ..m }
    } else if nib1(op) == 0xF && low_byte(op) == 0x55 {
        EmuState { ram: spec_store_regs(m, x), ..m }
    } else if nib1(op) == 0xF && low_byte(op) == 0x65 {
        EmuState { v: spec_load_regs(m, x), ..m }
    } else {
        m
    }
}

/// The opcode in memory at the program counter, big-endian.
pub open spec fn opcode_at(m: EmuState) -> u16 {
    (m.ram[m.pc as int] * 256 + m.ram[m.pc + 1]) as u16
}

/// Fetching advances the program counter past the opcode.
pub open spec fn spec_fetch(m: EmuState) -> EmuState {
    EmuState { pc: (m.pc + 2) as u16, ..m }
}

/// The conditions under which a whole fetch-decode-execute step runs
/// without a contract violation.
pub open spec fn step_ok(m: EmuState) -> bool {
    &&& m.pc + 1 < RAM_SIZE
    &&& exec_ok(spec_fetch(m), opcode_at(m))
}

/// One whole step: fetch the opcode at the program counter, then execute
/// it. `rnd` is the byte the random-mask opcode consumes.
pub open spec fn spec_step(m: EmuState, rnd: u8) -> EmuState {
    spec_exec(spec_fetch(m), opcode_at(m), rnd)
}

/// Every opcode but the random-mask family ignores the random byte.
pub proof fn lemma_exec_rand_irrelevant(m: EmuState, op: u16, r1: u8, r2: u8)
    requires
        nib1(op) != 0xC,
    ensures
        spec_exec(m, op, r1) == spec_exec(m, op, r2),
{
    assert(spec_exec(m, op, r1) =~= spec_exec(m, op, r2));
}

/// The lowest pressed key really is pressed, no lower key is, and a scan
/// that finds nothing means nothing is pressed.
pub proof fn lemma_first_key_from(keys: Seq<bool>, i: int)
    requires
        0 <= i <= NUM_KEYS,
    ensures
        i <= first_key_from(keys, i) <= NUM_KEYS,
        first_key_from(keys, i) < NUM_KEYS ==> keys[first_key_from(keys, i)],
        forall|j: int| i <= j < first_key_from(keys, i) ==> !keys[j],
        first_key_from(keys, i) == NUM_KEYS ==> forall|j: int|
            i <= j < NUM_KEYS ==> !keys[j],
    decreases NUM_KEYS - i,
{
    if i < NUM_KEYS && !keys[i] {
        lemma_first_key_from(keys, i + 1);
    }
}

/// Relies on rand::random: draws one byte from the process-wide generator.
/// Nothing is promised of the value.
#[verifier::external_body]
fn random_byte() -> u8 {
    rand::random()
}

impl Emu {
    /// Reads the two opcode bytes at the program counter, big-endian, and
    /// advances the program counter past them.
    fn fetch(&mut self) -> (op: u16)
        requires
            old(self)@.wf(),
            old(self)@.pc + 1 < RAM_SIZE,
        ensures
            final(self)@ == spec_fetch(old(self)@),
            op == opcode_at(old(self)@),
            final(self)@.wf(),
    {
        let hi: u16 = self.ram[self.pc as usize] as u16;
        let lo: u16 = self.ram[self.pc as usize + 1] as u16;
        let op = hi * 256 + lo;
        self.pc = self.pc + 2;
        proof {
            assert(self@ =~= spec_fetch(old(self)@));
        }
        op
    }

    /// The binary-coded-decimal opcode.
    fn op_bcd(&mut self, x: usize)
        requires
            old(self)@.wf(),
            x < 16,
            old(self)@.ireg + 2 < RAM_SIZE,
        ensures
            final(self)@ == (EmuState { ram: spec_bcd(old(self)@, x as int), ..old(self)@ }),
            final(self)@.wf(),
    {
        let vx = self.v_reg[x];
        let i = self.i_reg as usize;
        self.ram.set(i, vx / 100);
        self.ram.set(i + 1, (vx / 10) % 10);
        self.ram.set(i + 2, vx % 10);
        proof {
            assert(self@ =~= (EmuState { ram: spec_bcd(old(self)@, x as int), ..old(self)@ }));
        }
    }

    /// The register-store opcode: registers 0 through x into memory.
    fn op_store_regs(&mut self, x: usize)
        requires
            old(self)@.wf(),
            x < 16,
            old(self)@.ireg + x < RAM_SIZE,
        ensures
            final(self)@ == (EmuState {
                ram: spec_store_regs(old(self)@, x as int),
                ..old(self)@
            }),
            final(self)@.wf(),
    {
        let ghost m0 = self@;
        let i = self.i_reg as usize;
        let mut k: usize = 0;
        while k <= x
            invariant
                m0.wf(),
                x < 16,
                m0.ireg + x < RAM_SIZE,
                i == m0.ireg,
                k <= x + 1,
                self@ == (EmuState {
                    ram: Seq::new(m0.ram.len(), |j: int|
                        if m0.ireg <= j < m0.ireg + k { m0.v[j - m0.ireg] } else { m0.ram[j] }),
                    ..m0
                }),
            decreases x + 1 - k,
        {
            self.ram.set(i + k, self.v_reg[k]);
            k = k + 1;
            proof {
                assert(self@ =~= (EmuState {
                    ram: Seq::new(m0.ram.len(), |j: int|
                        if m0.ireg <= j < m0.ireg + k { m0.v[j - m0.ireg] } else { m0.ram[j] }),
                    ..m0
                }));
            }
        }
        proof {
            assert(self@ =~= (EmuState { ram: spec_store_regs(m0, x as int), ..m0 }));
        }
    }

    /// The register-load opcode: memory into registers 0 through x.
    fn op_load_regs(&mut self, x: usize)
        requires
            old(self)@.wf(),
            x < 16,
            old(self)@.ireg + x < RAM_SIZE,
        ensures
            final(self)@ == (EmuState { v: spec_load_regs(old(self)@, x as int), ..old(self)@ }),
            final(self)@.wf(),
    {
        let ghost m0 = self@;
        let i = self.i_reg as usize;
        let mut k: usize = 0;
        while k <= x
            invariant
                m0.wf(),
                x < 16,
                m0.ireg + x < RAM_SIZE,
                i == m0.ireg,
                k <= x + 1,
                self@ == (EmuState {
                    v: Seq::new(m0.v.len(), |j: int|
                        if 0 <= j < k { m0.ram[m0.ireg + j] } else { m0.v[j] }),
                    ..m0
                }),
            decreases x + 1 - k,
        {
            self.v_reg.set(k, self.ram[i + k]);
            k = k + 1;
            proof {
                assert(self@ =~= (EmuState {
                    v: Seq::new(m0.v.len(), |j: int|
                        if 0 <= j < k { m0.ram[m0.ireg + j] } else { m0.v[j] }),
                    ..m0
                }));
            }
        }
        proof {
            assert(self@ =~= (EmuState { v: spec_load_regs(m0, x as int), ..m0 }));
        }
    }

    /// The blocking key wait: scan the keys from index 0; when one is
    /// pressed its index lands in register x, otherwise the program counter
    /// rewinds so the instruction re-executes next step.
    fn op_wait_key(&mut self, x: usize)
        requires
            old(self)@.wf(),
            x < 16,
            first_key(old(self)@.keys) >= NUM_KEYS ==> old(self)@.pc >= 2,
        ensures
            final(self)@ == spec_wait_key(old(self)@, x as int),
            final(self)@.wf(),
    {
        let ghost m0 = self@;
        let mut found = false;
        let mut k: usize = 0;
        while k < NUM_KEYS
            invariant
                m0.wf(),
                x < 16,
                k <= NUM_KEYS,
                first_key(m0.keys) >= NUM_KEYS ==> m0.pc >= 2,
                !found ==> self@ == m0 && first_key_from(m0.keys, k as int) == first_key(m0.keys)
                    && (forall|j: int| 0 <= j < k ==> !m0.keys[j]),
                found ==> first_key(m0.keys) < k && self@ == (EmuState {
                    v: m0.v.update(x as int, first_key(m0.keys) as u8),
                    ..m0
                }),
            decreases NUM_KEYS - k,
        {
            if !found && self.keys[k] {
                self.v_reg.set(x, k as u8);
                found = true;
                proof {
                    assert(first_key_from(m0.keys, k as int) == k);
                    assert(self@ =~= (EmuState {
                        v: m0.v.update(x as int, first_key(m0.keys) as u8),
                        ..m0
                    }));
                }
            }
            k = k + 1;
        }
        if !found {
            self.pc = self.pc - 2;
            proof {
                assert(self@ =~= spec_wait_key(m0, x as int));
            }
        }
        proof {
            assert(self@ =~= spec_wait_key(m0, x as int));
        }
    }

    /// Executes exactly one already-fetched opcode. The byte consumed by
    /// the random-mask opcode is passed in by the caller, so every caller
    /// knows the exact resulting state for the byte it supplied.

    /// Executes exactly one already-fetched opcode. The byte consumed by
    /// the random-mask opcode is passed in by the caller, so every caller
    /// knows the exact resulting state for the byte it supplied.
    pub fn execute(&mut self, op: u16, rnd: u8)
        requires
            old(self)@.wf(),
            exec_ok(old(self)@, op),
        ensures
            final(self)@ == spec_exec(old(self)@, op, rnd),
            final(self)@.wf(),
    {
        let d1: u16 = op / 0x1000;
        if d1 <= 0x7 {
            self.execute_arith_low(op, rnd);
        } else if d1 == 0x8 {
            self.execute_reg_ops(op, rnd);
        } else if d1 <= 0xB {
            self.execute_jumps(op, rnd);
        } else {
            self.execute_high(op, rnd);
        }
    }

    /// The instruction families 0 through 7: system, jumps, calls,
    /// immediate skips and immediate register arithmetic.
    #[verifier::spinoff_prover]
    fn execute_arith_low(&mut self, op: u16, rnd: u8)
        requires
            old(self)@.wf(),
            exec_ok(old(self)@, op),
            nib1(op) <= 0x7,
        ensures
            final(self)@ == spec_exec(old(self)@, op, rnd),
            final(self)@.wf(),
    {
        let d1: u16 = op / 0x1000;
        let x: usize = ((op / 0x100) % 16) as usize;
        let y: usize = ((op / 16) % 16) as usize;
        let nnn: u16 = op % 0x1000;
        let nn: u8 = (op % 0x100) as u8;
        let ghost m0 = self@;
        if op == 0x0000 {
            // no-op
        } else if op == 0x00E0 {
            self.clear_screen();
            proof {
                assert(self@ =~= spec_exec(m0, op, rnd));
            }
        } else if op == 0x00EE {
            let ret = self.pop();
            self.pc = ret;
            proof {
                assert(self@ =~= spec_exec(m0, op, rnd));
            }
        } else if d1 == 0x1 {
            self.pc = nnn;
            proof {
                assert(self@ =~= spec_exec(m0, op, rnd));
            }
        } else if d1 == 0x2 {
            let here = self.pc;
            self.push(here);
            self.pc = nnn;
            proof {
                assert(self@ =~= spec_exec(m0, op, rnd));
            }
        } else if d1 == 0x3 {
            if self.v_reg[x] == nn {
                self.pc = self.pc + 2;
            }
            proof {
                assert(self@ =~= spec_exec(m0, op, rnd));
            }
        } else if d1 == 0x4 {
            if self.v_reg[x] != nn {
                self.pc = self.pc + 2;
            }
            proof {
                assert(self@ =~= spec_exec(m0, op, rnd));
            }
        } else if d1 == 0x5 {
            if self.v_reg[x] == self.v_reg[y] {
                self.pc = self.pc + 2;
            }
            proof {
                assert(self@ =~= spec_exec(m0, op, rnd));
            }
        } else if d1 == 0x6 {
            self.v_reg.set(x, nn);
            proof {
                assert(self@ =~= spec_exec(m0, op, rnd));
            }
        } else {
            let a = self.v_reg[x];
            let s: u16 = a as u16 + nn as u16;
            self.v_reg.set(x, (s % 256) as u8);
            proof {
                assert(d1 == 0x7);
                assert(self@ =~= spec_exec(m0, op, rnd));
            }
        }
    }

    /// The instruction families 8 through B: register-to-register
    /// arithmetic and shifts, the register skip, and the index and offset
    /// jumps.
    #[verifier::rlimit(100)]
    #[verifier::spinoff_prover]
    fn execute_reg_ops(&mut self, op: u16, rnd: u8)
        requires
            old(self)@.wf(),
            exec_ok(old(self)@, op),
            nib1(op) == 0x8,
        ensures
            final(self)@ == spec_exec(old(self)@, op, rnd),
            final(self)@.wf(),
    {
        let d1: u16 = op / 0x1000;
        let x: usize = ((op / 0x100) % 16) as usize;
        let y: usize = ((op / 16) % 16) as usize;
        let d4: u16 = op % 16;
        let nnn: u16 = op % 0x1000;
        let ghost m0 = self@;
        if d1 == 0x8 && d4 == 0x0 {
            let b = self.v_reg[y];
            self.v_reg.set(x, b);
            proof {
                assert(self@ =~= spec_exec(m0, op, rnd));
            }
        } else if d1 == 0x8 && d4 == 0x1 {
            let r = self.v_reg[x] | self.v_reg[y];
            self.v_reg.set(x, r);
            proof {
                assert(self@ =~= spec_exec(m0, op, rnd));
            }
        } else if d1 == 0x8 && d4 == 0x2 {
            let r = self.v_reg[x] & self.v_reg[y];
            self.v_reg.set(x, r);
            proof {
                assert(self@ =~= spec_exec(m0, op, rnd));
            }
        } else if d1 == 0x8 && d4 == 0x3 {
            let r = self.v_reg[x] ^ self.v_reg[y];
            self.v_reg.set(x, r);
            proof {
                assert(self@ =~= spec_exec(m0, op, rnd));
            }
        } else if d1 == 0x8 && d4 == 0x4 {
            let a = self.v_reg[x];
            let b = self.v_reg[y];
            let s: u16 = a as u16 + b as u16;
            self.v_reg.set(x, (s % 256) as u8);
            let flag: u8 = if s >= 256 { 1 } else { 0 };
            self.v_reg.set(15, flag);
            proof {
                assert(self@ =~= spec_exec(m0, op, rnd));
            }
        } else if d1 == 0x8 && d4 == 0x5 {
            let a = self.v_reg[x];
            let b = self.v_reg[y];
            let d: u16 = (a as u16 + 256) - b as u16;
            self.v_reg.set(x, (d % 256) as u8);
            let flag: u8 = if a < b { 0 } else { 1 };
            self.v_reg.set(15, flag);
            proof {
                lemma_mod_add_multiples_vanish(a - b, 256);
                assert(self@ =~= spec_exec(m0, op, rnd));
            }
        } else if d1 == 0x8 && d4 == 0x6 {
            let a = self.v_reg[x];
            self.v_reg.set(15, a % 2);
            let cur = self.v_reg[x];
            self.v_reg.set(x, cur / 2);
            proof {
                assert(self@ =~= spec_exec(m0, op, rnd));
            }
        } else if d1 == 0x8 && d4 == 0x7 {
            let a = self.v_reg[x];
            let b = self.v_reg[y];
            let d: u16 = (b as u16 + 256) - a as u16;
            self.v_reg.set(x, (d % 256) as u8);
            let flag: u8 = if b < a { 0 } else { 1 };
            self.v_reg.set(15, flag);
            proof {
                lemma_mod_add_multiples_vanish(b - a, 256);
                assert(self@ =~= spec_exec(m0, op, rnd));
            }
        } else {
            let a = self.v_reg[x];
            self.v_reg.set(15, a / 128);
            let cur = self.v_reg[x];
            let s: u16 = cur as u16 * 2;
            self.v_reg.set(x, (s % 256) as u8);
            proof {
                assert(d4 == 0xE);
                assert(self@ =~= spec_exec(m0, op, rnd));
            }
        }
    }

    /// The instruction families 9 through B: the register skip, the index
    /// immediate and the offset jump.
    #[verifier::spinoff_prover]
    fn execute_jumps(&mut self, op: u16, rnd: u8)
        requires
            old(self)@.wf(),
            exec_ok(old(self)@, op),
            0x9 <= nib1(op) <= 0xB,
        ensures
            final(self)@ == spec_exec(old(self)@, op, rnd),
            final(self)@.wf(),
    {
        let d1: u16 = op / 0x1000;
        let x: usize = ((op / 0x100) % 16) as usize;
        let y: usize = ((op / 16) % 16) as usize;
        let nnn: u16 = op % 0x1000;
        let ghost m0 = self@;
        if d1 == 0x9 {
            if self.v_reg[x] == self.v_reg[y] {
                self.pc = self.pc + 2;
            }
            proof {
                assert(self@ =~= spec_exec(m0, op, rnd));
            }
        } else if d1 == 0xA {
            self.i_reg = nnn;
            proof {
                assert(self@ =~= spec_exec(m0, op, rnd));
            }
        } else {
            self.pc = nnn + self.v_reg[0] as u16;
            proof {
                assert(d1 == 0xB);
                assert(self@ =~= spec_exec(m0, op, rnd));
            }
        }
    }

    /// The instruction families C through F: random mask, sprite draw, key
    /// skips, timers, the index register, digits and register blocks.
    #[verifier::spinoff_prover]
    fn execute_high(&mut self, op: u16, rnd: u8)
        requires
            old(self)@.wf(),
            exec_ok(old(self)@, op),
            0xC <= nib1(op),
        ensures
            final(self)@ == spec_exec(old(self)@, op, rnd),
            final(self)@.wf(),
    {
        let d1: u16 = op / 0x1000;
        let x: usize = ((op / 0x100) % 16) as usize;
        let y: usize = ((op / 16) % 16) as usize;
        let d4: u16 = op % 16;
        let nn: u8 = (op % 0x100) as u8;
        let kk: u16 = op % 0x100;
        let ghost m0 = self@;
        if d1 == 0xC {
            self.v_reg.set(x, rnd & nn);
            proof {
                assert(self@ =~= spec_exec(m0, op, rnd));
            }
        } else if d1 == 0xD {
            self.op_draw(x, y, d4 as usize);
            proof {
                assert(self@ =~= spec_exec(m0, op, rnd));
            }
        } else if d1 == 0xE && kk == 0x9E {
            let vx = self.v_reg[x];
            if self.keys[vx as usize] {
                self.pc = self.pc + 2;
            }
            proof {
                assert(self@ =~= spec_exec(m0, op, rnd));
            }
        } else if d1 == 0xE {
            let vx = self.v_reg[x];
            if !self.keys[vx as usize] {
                self.pc = self.pc + 2;
            }
            proof {
                assert(kk == 0xA1);
                assert(self@ =~= spec_exec(m0, op, rnd));
            }
        } else if kk == 0x07 {
            let t = self.dt;
            self.v_reg.set(x, t);
            proof {
                assert(self@ =~= spec_exec(m0, op, rnd));
            }
        } else if kk == 0x0A {
            self.op_wait_key(x);
            proof {
                assert(self@ =~= spec_exec(m0, op, rnd));
            }
        } else if kk == 0x15 {
            self.dt = self.v_reg[x];
            proof {
                assert(self@ =~= spec_exec(m0, op, rnd));
            }
        } else if kk == 0x18 {
            self.st = self.v_reg[x];
            proof {
                assert(self@ =~= spec_exec(m0, op, rnd));
            }
        } else if kk == 0x1E {
            let s: u32 = self.i_reg as u32 + self.v_reg[x] as u32;
            self.i_reg = (s % 0x10000) as u16;
            proof {
                assert(self@ =~= spec_exec(m0, op, rnd));
            }
        } else if kk == 0x29 {
            self.i_reg = self.v_reg[x] as u16 * 5;
            proof {
                assert(self@ =~= spec_exec(m0, op, rnd));
            }
        } else if kk == 0x33 {
            self.op_bcd(x);
            proof {
                assert(self@ =~= spec_exec(m0, op, rnd));
            }
        } else if kk == 0x55 {
            self.op_store_regs(x);
            proof {
                assert(self@ =~= spec_exec(m0, op, rnd));
            }
        } else {
            self.op_load_regs(x);
            proof {
                assert(d1 == 0xF && kk == 0x65);
                assert(self@ =~= spec_exec(m0, op, rnd));
            }
        }
    }

    /// Clears the frame buffer.
    fn clear_screen(&mut self)
        requires
            old(self)@.wf(),
        ensures
            final(self)@ == (EmuState {
                screen: Seq::new(old(self)@.screen.len(), |j: int| false),
                ..old(self)@
            }),
            final(self)@.wf(),
    {
        self.screen = crate::state::filled(crate::state::SCREEN_WIDTH * crate::state::SCREEN_HEIGHT, false);
        proof {
            assert(self@ =~= (EmuState {
                screen: Seq::new(old(self)@.screen.len(), |j: int| false),
                ..old(self)@
            }));
        }
    }

    /// Whether the next fetch-decode-execute step is free of contract
    /// violations: the program counter is in bounds, the opcode there is
    /// recognized, the call stack neither overflows nor underflows, and
    /// every memory or key access stays in bounds. A host checks this
    /// before stepping and treats a refusal as the fatal error it is.
    #[verifier::spinoff_prover]
    pub fn step_allowed(&self) -> (r: bool)
        requires
            self@.wf(),
        ensures
            r == step_ok(self@),
    {
        if !(self.pc as usize + 1 < RAM_SIZE) {
            return false;
        }
        let op: u16 = (self.ram[self.pc as usize] as u16) * 256 + (self.ram[self.pc as usize + 1]
            as u16);
        let d1: u16 = op / 0x1000;
        let x: usize = ((op / 0x100) % 16) as usize;
        let d4: u16 = op % 16;
        let kk: u16 = op % 0x100;
        let ok: bool = if op == 0x0000 || op == 0x00E0 {
            true
        } else if op == 0x00EE {
            self.sp >= 1
        } else if d1 == 0x1 || d1 == 0x3 || d1 == 0x4 || d1 == 0x6 || d1 == 0x7 {
            true
        } else if d1 == 0x2 {
            (self.sp as usize) < STACK_SIZE
        } else if d1 == 0x5 || d1 == 0x9 {
            d4 == 0
        } else if d1 == 0x8 {
            d4 <= 0x7 || d4 == 0xE
        } else if d1 == 0xA || d1 == 0xB || d1 == 0xC {
            true
        } else if d1 == 0xD {
            self.i_reg as usize + d4 as usize <= RAM_SIZE
        } else if d1 == 0xE {
            (kk == 0x9E || kk == 0xA1) && (self.v_reg[x] as usize) < NUM_KEYS
        } else if d1 == 0xF {
            if kk == 0x07 || kk == 0x0A || kk == 0x15 || kk == 0x18 || kk == 0x1E || kk == 0x29 {
                true
            } else if kk == 0x33 {
                (self.i_reg as usize) + 2 < RAM_SIZE
            } else if kk == 0x55 || kk == 0x65 {
                (self.i_reg as usize) + x < RAM_SIZE
            } else {
                false
            }
        } else {
            false
        };
        proof {
            assert(op == opcode_at(self@));
            assert(ok == exec_ok(spec_fetch(self@), opcode_at(self@)));
        }
        ok
    }

    /// One fetch-decode-execute cycle: exactly one opcode is executed. The
    /// random-mask opcode draws its byte from the process-wide generator,
    /// so for that opcode some byte was consumed; every other opcode steps
    /// deterministically.
    pub fn tick(&mut self)
        requires
            old(self)@.wf(),
            step_ok(old(self)@),
        ensures
            exists|r: u8| final(self)@ == spec_step(old(self)@, r),
            nib1(opcode_at(old(self)@)) != 0xC ==> final(self)@ == spec_step(old(self)@, 0),
            final(self)@.wf(),
    {
        let op = self.fetch();
        let rnd = random_byte();
        self.execute(op, rnd);
        proof {
            assert(self@ == spec_step(old(self)@, rnd));
            if nib1(op) != 0xC {
                lemma_exec_rand_irrelevant(spec_fetch(old(self)@), op, rnd, 0);
            }
        }
    }
}

} // verus!
