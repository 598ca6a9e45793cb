//! The machine state: registers, memory, call stack, frame buffer, keys and
//! timers, together with its mathematical model `EmuState` and the lifecycle
//! and accessor methods.

use vstd::prelude::*;

verus! {

pub const SCREEN_WIDTH: usize = 64;
pub const SCREEN_HEIGHT: usize = 32;

pub const RAM_SIZE: usize = 4096;
pub const NUM_REGS: usize = 16;
pub const NUM_KEYS: usize = 16;
pub const STACK_SIZE: usize = 16;
pub const START_ADDR: u16 = 0x200;
pub const FONTSET_SIZE: usize = 80;

/// The built-in glyph table: 16 glyphs of 5 rows each, one bit per pixel.
pub open spec fn glyph_table() -> Seq<u8> {
    seq![
        0xF0u8, 0x90, 0x90, 0x90, 0xF0, // 0
        0x20, 0x60, 0x20, 0x20, 0x70, // 1
        0xF0, 0x10, 0xF0, 0x80, 0xF0, // 2
        0xF0, 0x10, 0xF0, 0x10, 0xF0, // 3
        0x90, 0x90, 0xF0, 0x10, 0x10, // 4
        0xF0, 0x80, 0xF0, 0x10, 0xF0, // 5
        0xF0, 0x80, 0xF0, 0x90, 0xF0, // 6
        0xF0, 0x10, 0x20, 0x40, 0x40, // 7
        0xF0, 0x90, 0xF0, 0x90, 0xF0, // 8
        0xF0, 0x90, 0xF0, 0x10, 0xF0, // 9
        0xF0, 0x90, 0xF0, 0x90, 0x90, // A
        0xE0, 0x90, 0xE0, 0x90, 0xE0, // B
        0xF0, 0x80, 0x80, 0x80, 0xF0, // C
        0xE0, 0x90, 0x90, 0x90, 0xE0, // D
        0xF0, 0x80, 0xF0, 0x80, 0xF0, // E
        0xF0, 0x80, 0xF0, 0x80, 0x80, // F
    ]
}

/// The glyph table as an executable byte vector.
fn glyph_bytes() -> (v: Vec<u8>)
    ensures
        v@ == glyph_table(),
{
    let v: Vec<u8> = vec![
        0xF0u8, 0x90, 0x90, 0x90, 0xF0,
        0x20, 0x60, 0x20, 0x20, 0x70,
        0xF0, 0x10, 0xF0, 0x80, 0xF0,
        0xF0, 0x10, 0xF0, 0x10, 0xF0,
        0x90, 0x90, 0xF0, 0x10, 0x10,
        0xF0, 0x80, 0xF0, 0x10, 0xF0,
        0xF0, 0x80, 0xF0, 0x90, 0xF0,
        0xF0, 0x10, 0x20, 0x40, 0x40,
        0xF0, 0x90, 0xF0, 0x90, 0xF0,
        0xF0, 0x90, 0xF0, 0x10, 0xF0,
        0xF0, 0x90, 0xF0, 0x90, 0x90,
        0xE0, 0x90, 0xE0, 0x90, 0xE0,
        0xF0, 0x80, 0x80, 0x80, 0xF0,
        0xE0, 0x90, 0x90, 0x90, 0xE0,
        0xF0, 0x80, 0xF0, 0x80, 0xF0,
        0xF0, 0x80, 0xF0, 0x80, 0x80,
    ];
    proof {
        assert(v@ =~= glyph_table());
    }
    v
}

/// Builds a vector of length `n` filled with `val`.
pub(crate) fn filled<T: Copy>(n: usize, val: T) -> (v: Vec<T>)
    ensures
        v@ == Seq::new(n as nat, |i: int| val),
{
    let mut v: Vec<T> = Vec::new();
    let mut k: usize = 0;
    while k < n
        invariant
            k <= n,
            v@ == Seq::new(k as nat, |i: int| val),
        decreases n - k,
    {
        v.push(val);
        k = k + 1;
        proof {
            assert(v@ =~= Seq::new(k as nat, |i: int| val));
        }
    }
    v
}

/// The mathematical model of the whole machine.
#[verifier::ext_equal]
pub ghost struct EmuState {
    pub pc: u16,
    pub ram: Seq<u8>,
    pub screen: Seq<bool>,
    pub v: Seq<u8>,
    pub ireg: u16,
    pub sp: u16,
    pub stack: Seq<u16>,
    pub keys: Seq<bool>,
    pub dt: u8,
    pub st: u8,
}

impl EmuState {
    /// Well-formedness: every fixed-size buffer has its fixed size and the
    /// stack pointer stays within the stack.
    pub open spec fn wf(self) -> bool {
        &&& self.ram.len() == RAM_SIZE
        &&& self.screen.len() == SCREEN_WIDTH * SCREEN_HEIGHT
        &&& self.v.len() == NUM_REGS
        &&& self.stack.len() == STACK_SIZE
        &&& self.keys.len() == NUM_KEYS
        &&& self.sp <= STACK_SIZE
    }

    /// The state right after construction (and after `reset`): the glyph
    /// table in low memory, everything else zeroed, and the program counter
    /// at the program start address.
    pub open spec fn initial() -> EmuState {
        EmuState {
            pc: START_ADDR,
            ram: glyph_table() + Seq::new((RAM_SIZE - FONTSET_SIZE) as nat, |i: int| 0u8),
            screen: Seq::new((SCREEN_WIDTH * SCREEN_HEIGHT) as nat, |i: int| false),
            v: Seq::new(NUM_REGS as nat, |i: int| 0u8),
            ireg: 0,
            sp: 0,
            stack: Seq::new(STACK_SIZE as nat, |i: int| 0u16),
            keys: Seq::new(NUM_KEYS as nat, |i: int| false),
            dt: 0,
            st: 0,
        }
    }
}

/// A call pushes a return address: the slot at the stack pointer is written
/// and the pointer moves up.
pub open spec fn spec_push(m: EmuState, val: u16) -> EmuState {
    EmuState { stack: m.stack.update(m.sp as int, val), sp: (m.sp + 1) as u16, ..m }
}

/// A return pops: only the stack pointer moves down (the slot is not erased).
pub open spec fn spec_pop(m: EmuState) -> EmuState {
    EmuState { sp: (m.sp - 1) as u16, ..m }
}

/// What `load` does to memory: the program bytes land at the start address,
/// everything else is untouched.
pub open spec fn spec_load(ram: Seq<u8>, data: Seq<u8>) -> Seq<u8> {
    Seq::new(
        ram.len(),
        |j: int|
            if START_ADDR <= j < START_ADDR + data.len() {
                data[j - START_ADDR]
            } else {
                ram[j]
            },
    )
}

/// One timer tick: each counter decrements when it is above zero.
pub open spec fn spec_tick_timers(m: EmuState) -> EmuState {
    EmuState {
        dt: if m.dt > 0 { (m.dt - 1) as u8 } else { 0u8 },
        st: if m.st > 0 { (m.st - 1) as u8 } else { 0u8 },
        ..m
    }
}

/// The machine: 4KB of memory, 16 registers, an index register, a 16-slot
/// call stack, a 64x32 monochrome frame buffer, 16 key flags and two timers.
pub struct Emu {
    pub(crate) pc: u16,
    pub(crate) ram: Vec<u8>,
    pub(crate) screen: Vec<bool>,
    pub(crate) v_reg: Vec<u8>,
    pub(crate) i_reg: u16,
    pub(crate) sp: u16,
    pub(crate) stack: Vec<u16>,
    pub(crate) keys: Vec<bool>,
    pub(crate) dt: u8,
    pub(crate) st: u8,
}

impl View for Emu {
    type V = EmuState;

    open(crate) spec fn view(&self) -> EmuState {
        EmuState {
            pc: self.pc,
            ram: self.ram@,
            screen: self.screen@,
            v: self.v_reg@,
            ireg: self.i_reg,
            sp: self.sp,
            stack: self.stack@,
            keys: self.keys@,
            dt: self.dt,
            st: self.st,
        }
    }
}

impl Emu {
    /// A fresh machine: glyph table installed, everything else zeroed.
    pub fn new() -> (e: Emu)
        ensures
            e@ == EmuState::initial(),
            e@.wf(),
    {
        let mut ram = glyph_bytes();
        let mut k: usize = FONTSET_SIZE;
        while k < RAM_SIZE
            invariant
                FONTSET_SIZE <= k <= RAM_SIZE,
                ram@ == glyph_table() + Seq::new((k - FONTSET_SIZE) as nat, |i: int| 0u8),
            decreases RAM_SIZE - k,
        {
            ram.push(0);
            k = k + 1;
            proof {
                assert(ram@ =~= glyph_table() + Seq::new((k - FONTSET_SIZE) as nat, |i: int| 0u8));
            }
        }
        let e = Emu {
            pc: START_ADDR,
            ram,
            screen: filled(SCREEN_WIDTH * SCREEN_HEIGHT, false),
            v_reg: filled(NUM_REGS, 0u8),
            i_reg: 0,
            sp: 0,
            stack: filled(STACK_SIZE, 0u16),
            keys: filled(NUM_KEYS, false),
            dt: 0,
            st: 0,
        };
        proof {
            assert(e@ =~= EmuState::initial());
        }
        e
    }

    /// Full reinitialization: afterwards the machine is indistinguishable
    /// from a freshly constructed one.
    pub fn reset(&mut self)
        ensures
            final(self)@ == EmuState::initial(),
            final(self)@.wf(),
    {
        *self = Emu::new();
    }

    /// Pushes a return address onto the call stack.
    pub fn push(&mut self, val: u16)
        requires
            old(self)@.wf(),
            old(self)@.sp < STACK_SIZE,
        ensures
            final(self)@ == spec_push(old(self)@, val),
            final(self)@.wf(),
    {
        let idx: usize = self.sp as usize;
        self.stack.set(idx, val);
        self.sp = self.sp + 1;
        proof {
            assert(self@ =~= spec_push(old(self)@, val));
        }
    }

    /// Pops the most recently pushed return address.
    pub fn pop(&mut self) -> (r: u16)
        requires
            old(self)@.wf(),
            old(self)@.sp >= 1,
        ensures
            final(self)@ == spec_pop(old(self)@),
            r == old(self)@.stack[old(self)@.sp - 1],
            final(self)@.wf(),
    {
        self.sp = self.sp - 1;
        let r = self.stack[self.sp as usize];
        proof {
            assert(self@ =~= spec_pop(old(self)@));
        }
        r
    }

    /// Records a key going down or up.
    pub fn keypress(&mut self, idx: usize, pressed: bool)
        requires
            old(self)@.wf(),
            idx < NUM_KEYS,
        ensures
            final(self)@ == (EmuState { keys: old(self)@.keys.update(idx as int, pressed), ..old(self)@ }),
            final(self)@.wf(),
    {
        self.keys.set(idx, pressed);
        proof {
            assert(self@ =~= (EmuState { keys: old(self)@.keys.update(idx as int, pressed), ..old(self)@ }));
        }
    }

    /// Copies a program into memory at the start address. The caller must
    /// make sure the program fits below the memory ceiling.
    pub fn load(&mut self, data: &[u8])
        requires
            old(self)@.wf(),
            START_ADDR + data@.len() <= RAM_SIZE,
        ensures
            final(self)@ == (EmuState { ram: spec_load(old(self)@.ram, data@), ..old(self)@ }),
            final(self)@.wf(),
    {
        let mut k: usize = 0;
        let n: usize = data.len();
        while k < n
            invariant
                old(self)@.wf(),
                k <= n,
                n == data@.len(),
                START_ADDR + n <= RAM_SIZE,
                self@ == (EmuState {
                    ram: Seq::new(old(self)@.ram.len(), |j: int|
                        if START_ADDR <= j < START_ADDR + k {
                            data@[j - START_ADDR]
                        } else {
                            old(self)@.ram[j]
                        }),
                    ..old(self)@
                }),
            decreases n - k,
        {
            let addr: usize = START_ADDR as usize + k;
            self.ram.set(addr, data[k]);
            k = k + 1;
            proof {
                assert(self@ =~= (EmuState {
                    ram: Seq::new(old(self)@.ram.len(), |j: int|
                        if START_ADDR <= j < START_ADDR + k {
                            data@[j - START_ADDR]
                        } else {
                            old(self)@.ram[j]
                        }),
                    ..old(self)@
                }));
            }
        }
        proof {
            assert(self@ =~= (EmuState { ram: spec_load(old(self)@.ram, data@), ..old(self)@ }));
        }
    }

    /// The frame buffer, row-major: cell `y * 64 + x` is the pixel at (x, y).
    pub fn get_display(&self) -> (r: &[bool])
        ensures
            r@ == self@.screen,
    {
        self.screen.as_slice()
    }

    /// One timer tick: both counters decrement when above zero.
    pub fn tick_timers(&mut self)
        ensures
            final(self)@ == spec_tick_timers(old(self)@),
    {
        if self.dt > 0 {
            self.dt = self.dt - 1;
        }
        if self.st > 0 {
            if self.st == 1 {
                // the audible tone would stop here; sound output is external
            }
            self.st = self.st - 1;
        }
        proof {
            assert(self@ =~= spec_tick_timers(old(self)@));
        }
    }

    /// Reads one general register.
    pub fn get_register(&self, idx: usize) -> (r: u8)
        requires
            self@.wf(),
            idx < NUM_REGS,
        ensures
            r == self@.v[idx as int],
    {
        self.v_reg[idx]
    }

    /// The program counter.
    pub fn get_pc(&self) -> (r: u16)
        ensures
            r == self@.pc,
    {
        self.pc
    }

    /// The index register.
    pub fn get_index(&self) -> (r: u16)
        ensures
            r == self@.ireg,
    {
        self.i_reg
    }

    /// Reads one byte of memory.
    pub fn get_ram(&self, addr: usize) -> (r: u8)
        requires
            self@.wf(),
            addr < RAM_SIZE,
        ensures
            r == self@.ram[addr as int],
    {
        self.ram[addr]
    }

    /// The delay timer.
    pub fn get_delay_timer(&self) -> (r: u8)
        ensures
            r == self@.dt,
    {
        self.dt
    }

    /// The sound timer.
    pub fn get_sound_timer(&self) -> (r: u8)
        ensures
            r == self@.st,
    {
        self.st
    }

    /// The current call-stack depth.
    pub fn get_stack_depth(&self) -> (r: u16)
        ensures
            r == self@.sp,
    {
        self.sp
    }

    /// Whether a key is currently pressed.
    pub fn get_key(&self, idx: usize) -> (r: bool)
        requires
            self@.wf(),
            idx < NUM_KEYS,
        ensures
            r == self@.keys[idx as int],
    {
        self.keys[idx]
    }
}

} // verus!
