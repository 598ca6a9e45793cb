//! Opcode-level behavior, driven through the public `execute` entry point
//! (which takes the random byte explicitly) and through `tick`.

use chip8_core::Emu;

/// The add-with-carry opcode wraps modulo 256 and sets the flag on carry.
#[test]
fn add_with_carry_wraps() {
    let mut e = Emu::new();
    e.execute(0x61C8, 0); // v1 = 200
    e.execute(0x6264, 0); // v2 = 100
    e.execute(0x8124, 0); // v1 += v2
    assert_eq!(e.get_register(1), 44); // (200 + 100) % 256
    assert_eq!(e.get_register(15), 1);
}

#[test]
fn add_without_carry_clears_flag() {
    let mut e = Emu::new();
    e.execute(0x6F07, 0); // dirty the flag first
    e.execute(0x6103, 0);
    e.execute(0x6204, 0);
    e.execute(0x8124, 0);
    assert_eq!(e.get_register(1), 7);
    assert_eq!(e.get_register(15), 0);
}

/// The subtract opcode wraps modulo 256; the flag is 0 exactly on borrow.
#[test]
fn sub_with_borrow() {
    let mut e = Emu::new();
    e.execute(0x6105, 0); // v1 = 5
    e.execute(0x6207, 0); // v2 = 7
    e.execute(0x8125, 0); // v1 -= v2
    assert_eq!(e.get_register(1), 254); // (5 - 7) mod 256
    assert_eq!(e.get_register(15), 0);
}

#[test]
fn sub_without_borrow() {
    let mut e = Emu::new();
    e.execute(0x6107, 0);
    e.execute(0x6205, 0);
    e.execute(0x8125, 0);
    assert_eq!(e.get_register(1), 2);
    assert_eq!(e.get_register(15), 1);
}

/// The reverse subtract: v x = v y - v x.
#[test]
fn rsub_sets_inverted_borrow() {
    let mut e = Emu::new();
    e.execute(0x6103, 0); // v1 = 3
    e.execute(0x620A, 0); // v2 = 10
    e.execute(0x8127, 0); // v1 = v2 - v1
    assert_eq!(e.get_register(1), 7);
    assert_eq!(e.get_register(15), 1);
}

/// Shift right: the flag is the bit shifted out, never the result's bit.
#[test]
fn shift_right_flag_is_old_low_bit() {
    let mut e = Emu::new();
    e.execute(0x6185, 0); // v1 = 0b1000_0101
    e.execute(0x8106, 0); // v1 >>= 1
    assert_eq!(e.get_register(1), 0x42);
    assert_eq!(e.get_register(15), 1);
    e.execute(0x8106, 0); // now low bit is 0
    assert_eq!(e.get_register(1), 0x21);
    assert_eq!(e.get_register(15), 0);
}

/// Shift left: the flag is the old high bit.
#[test]
fn shift_left_flag_is_old_high_bit() {
    let mut e = Emu::new();
    e.execute(0x6185, 0); // v1 = 0b1000_0101
    e.execute(0x810E, 0); // v1 <<= 1
    assert_eq!(e.get_register(1), 0x0A);
    assert_eq!(e.get_register(15), 1);
    e.execute(0x810E, 0); // high bit now 0
    assert_eq!(e.get_register(1), 0x14);
    assert_eq!(e.get_register(15), 0);
}

/// Bitwise or, and, xor, and plain copy.
#[test]
fn bitwise_ops() {
    let mut e = Emu::new();
    e.execute(0x61F0, 0);
    e.execute(0x623C, 0);
    e.execute(0x8121, 0); // or
    assert_eq!(e.get_register(1), 0xFC);
    e.execute(0x61F0, 0);
    e.execute(0x8122, 0); // and
    assert_eq!(e.get_register(1), 0x30);
    e.execute(0x61F0, 0);
    e.execute(0x8123, 0); // xor
    assert_eq!(e.get_register(1), 0xCC);
    e.execute(0x8120, 0); // copy
    assert_eq!(e.get_register(1), 0x3C);
}

/// The add-immediate opcode wraps and leaves the flag alone.
#[test]
fn add_immediate_no_flag() {
    let mut e = Emu::new();
    e.execute(0x6F05, 0); // vF = 5, must stay
    e.execute(0x61FE, 0); // v1 = 254
    e.execute(0x7103, 0); // v1 += 3
    assert_eq!(e.get_register(1), 1);
    assert_eq!(e.get_register(15), 5);
}

/// The binary-coded-decimal opcode, at both ends of the byte range.
#[test]
fn bcd_digits() {
    let mut e = Emu::new();
    e.execute(0x61FF, 0); // v1 = 255
    e.execute(0xA300, 0); // i = 0x300
    e.execute(0xF133, 0);
    assert_eq!(e.get_ram(0x300), 2);
    assert_eq!(e.get_ram(0x301), 5);
    assert_eq!(e.get_ram(0x302), 5);
    e.execute(0x6100, 0); // v1 = 0
    e.execute(0xF133, 0);
    assert_eq!(e.get_ram(0x300), 0);
    assert_eq!(e.get_ram(0x301), 0);
    assert_eq!(e.get_ram(0x302), 0);
}

/// The random-mask opcode with an explicit byte: the mask is applied.
#[test]
fn random_mask_applies_mask() {
    let mut e = Emu::new();
    e.execute(0xC10F, 0xAB);
    assert_eq!(e.get_register(1), 0x0B);
    e.execute(0xC100, 0xAB); // mask 0 forces 0 whatever the byte
    assert_eq!(e.get_register(1), 0);
}

/// The random-mask opcode through `tick`: whatever byte the generator
/// produced, bits outside the mask are clear.
#[test]
fn random_mask_through_tick() {
    let mut e = Emu::new();
    let prog = [0xC1u8, 0x0F];
    e.load(&prog);
    e.tick();
    assert_eq!(e.get_register(1) & 0xF0, 0);
    assert_eq!(e.get_pc(), 0x202);
}

/// Register block store and load around memory.
#[test]
fn store_and_load_register_block() {
    let mut e = Emu::new();
    e.execute(0x600A, 0); // v0 = 10
    e.execute(0x6114, 0); // v1 = 20
    e.execute(0x621E, 0); // v2 = 30
    e.execute(0xA400, 0); // i = 0x400
    e.execute(0xF255, 0); // store v0..=v2
    assert_eq!(e.get_ram(0x400), 10);
    assert_eq!(e.get_ram(0x401), 20);
    assert_eq!(e.get_ram(0x402), 30);
    assert_eq!(e.get_ram(0x403), 0);
    e.execute(0x6300, 0);
    e.execute(0xA401, 0);
    e.execute(0xF165, 0); // v0 = ram[0x401], v1 = ram[0x402]
    assert_eq!(e.get_register(0), 20);
    assert_eq!(e.get_register(1), 30);
    assert_eq!(e.get_register(2), 30); // untouched above x
}

/// The index register: immediate, font lookup, and accumulate.
#[test]
fn index_register_ops() {
    let mut e = Emu::new();
    e.execute(0xA123, 0);
    assert_eq!(e.get_index(), 0x123);
    e.execute(0x610A, 0); // v1 = 10
    e.execute(0xF129, 0); // i = v1 * 5
    assert_eq!(e.get_index(), 50);
    e.execute(0x6105, 0);
    e.execute(0xF11E, 0); // i += v1
    assert_eq!(e.get_index(), 55);
}

/// The timers: set from a register, read back, and count down to zero
/// without wrapping.
#[test]
fn timers_set_read_and_tick() {
    let mut e = Emu::new();
    e.execute(0x6102, 0);
    e.execute(0xF115, 0); // delay = 2
    e.execute(0xF118, 0); // sound = 2
    assert_eq!(e.get_delay_timer(), 2);
    assert_eq!(e.get_sound_timer(), 2);
    e.tick_timers();
    e.tick_timers();
    e.tick_timers(); // already at zero: stays there
    assert_eq!(e.get_delay_timer(), 0);
    assert_eq!(e.get_sound_timer(), 0);
    e.execute(0x6200, 0);
    e.execute(0xF207, 0); // v2 = delay timer
    assert_eq!(e.get_register(2), 0);
}

/// The key skips: pressed and not-pressed variants.
#[test]
fn key_skip_opcodes() {
    let mut e = Emu::new();
    let prog = [
        0xE2u8, 0x9E, // skip if key[v2] pressed
        0x00, 0x00,
        0xE2, 0xA1, // skip if key[v2] not pressed
    ];
    e.load(&prog);
    e.execute(0x6207, 0); // v2 = 7
    e.keypress(7, true);
    e.tick(); // key pressed: skip
    assert_eq!(e.get_pc(), 0x204);
    e.tick(); // EXA1 with key pressed: no skip
    assert_eq!(e.get_pc(), 0x206);
}

/// The jumps: absolute, call, and offset by register 0.
#[test]
fn jump_opcodes() {
    let mut e = Emu::new();
    e.execute(0x1234, 0);
    assert_eq!(e.get_pc(), 0x234);
    e.execute(0x6005, 0); // v0 = 5
    e.execute(0xB300, 0); // pc = 0x300 + v0
    assert_eq!(e.get_pc(), 0x305);
}

/// An unconditional no-op leaves everything alone.
#[test]
fn noop_changes_nothing() {
    let mut e = Emu::new();
    let pc = e.get_pc();
    e.execute(0x0000, 0);
    assert_eq!(e.get_pc(), pc);
    assert_eq!(e.get_stack_depth(), 0);
}
