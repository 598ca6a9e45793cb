//! Whole-machine behavior: lifecycle, program flow, the blocking key wait,
//! sprite drawing with wraparound, and the display upscaler.

use chip8_core::get_display_translated;
use chip8_core::Emu;
use chip8_core::SCREEN_HEIGHT;
use chip8_core::SCREEN_WIDTH;

/// A freshly constructed machine: program counter at 0x200, glyph table in
/// low memory, everything else zero.
#[test]
fn fresh_machine_layout() {
    let e = Emu::new();
    assert_eq!(e.get_pc(), 0x200);
    assert_eq!(e.get_index(), 0);
    assert_eq!(e.get_stack_depth(), 0);
    assert_eq!(e.get_ram(0), 0xF0); // first glyph row
    assert_eq!(e.get_ram(79), 0x80); // last glyph row
    assert_eq!(e.get_ram(80), 0);
    for r in 0..16 {
        assert_eq!(e.get_register(r), 0);
        assert!(!e.get_key(r));
    }
    assert!(e.get_display().iter().all(|&c| !c));
}

/// `reset` yields a state indistinguishable from a fresh machine, field by
/// field, after arbitrary activity.
#[test]
fn reset_matches_fresh_machine() {
    let fresh = Emu::new();
    let mut e = Emu::new();
    let prog = [0x22u8, 0x06, 0x00, 0x00, 0x00, 0x00, 0x61, 0x10];
    e.load(&prog);
    e.tick(); // call
    e.execute(0x6342, 0);
    e.execute(0xA123, 0);
    e.execute(0xF318, 0);
    e.execute(0xF315, 0);
    e.keypress(4, true);
    e.execute(0xA050, 0);
    e.execute(0xD005, 0); // draw something
    e.reset();
    assert_eq!(e.get_pc(), fresh.get_pc());
    assert_eq!(e.get_index(), fresh.get_index());
    assert_eq!(e.get_stack_depth(), fresh.get_stack_depth());
    assert_eq!(e.get_delay_timer(), fresh.get_delay_timer());
    assert_eq!(e.get_sound_timer(), fresh.get_sound_timer());
    for r in 0..16 {
        assert_eq!(e.get_register(r), fresh.get_register(r));
        assert_eq!(e.get_key(r), fresh.get_key(r));
    }
    for a in 0..4096 {
        assert_eq!(e.get_ram(a), fresh.get_ram(a));
    }
    let d1 = e.get_display();
    let d2 = fresh.get_display();
    assert_eq!(d1.len(), d2.len());
    for j in 0..d1.len() {
        assert_eq!(d1[j], d2[j]);
    }
}

/// `load` puts the program at 0x200 and touches nothing else.
#[test]
fn load_places_program() {
    let mut e = Emu::new();
    let prog = [0xABu8, 0xCD, 0xEF];
    e.load(&prog);
    assert_eq!(e.get_ram(0x200), 0xAB);
    assert_eq!(e.get_ram(0x201), 0xCD);
    assert_eq!(e.get_ram(0x202), 0xEF);
    assert_eq!(e.get_ram(0x203), 0);
    assert_eq!(e.get_ram(0x1FF), 0);
    assert_eq!(e.get_ram(0), 0xF0); // glyphs untouched
}

/// A call followed immediately by a return restores the program counter to
/// the address just after the call, and the stack depth to what it was.
#[test]
fn call_then_return_restores_pc() {
    let mut e = Emu::new();
    let prog = [0x22u8, 0x04, 0x00, 0x00, 0x00, 0xEE];
    e.load(&prog);
    e.tick(); // call 0x204
    assert_eq!(e.get_pc(), 0x204);
    assert_eq!(e.get_stack_depth(), 1);
    e.tick(); // return
    assert_eq!(e.get_pc(), 0x202);
    assert_eq!(e.get_stack_depth(), 0);
}

/// Explicit push and pop round-trip.
#[test]
fn push_pop_roundtrip() {
    let mut e = Emu::new();
    e.push(0x123);
    e.push(0x456);
    assert_eq!(e.get_stack_depth(), 2);
    assert_eq!(e.pop(), 0x456);
    assert_eq!(e.pop(), 0x123);
    assert_eq!(e.get_stack_depth(), 0);
}

/// The conditional skips advance by 4 exactly when the condition holds.
#[test]
fn skip_opcodes_advance_exactly() {
    let mut e = Emu::new();
    e.execute(0x6107, 0); // v1 = 7
    e.execute(0x6207, 0); // v2 = 7
    e.execute(0x6309, 0); // v3 = 9

    let prog = [
        0x31u8, 0x07, // skip: v1 == 7 holds
        0x00, 0x00,
        0x31, 0x08, // no skip: v1 == 8 fails
        0x41, 0x08, // skip: v1 != 8 holds
        0x00, 0x00,
        0x51, 0x20, // skip: v1 == v2 holds
        0x00, 0x00,
        0x51, 0x30, // no skip: v1 == v3 fails
        0x91, 0x20, // skip: this design skips when equal, like family 5
        0x00, 0x00,
        0x91, 0x30, // no skip
    ];
    e.load(&prog);
    e.tick();
    assert_eq!(e.get_pc(), 0x204);
    e.tick();
    assert_eq!(e.get_pc(), 0x206);
    e.tick();
    assert_eq!(e.get_pc(), 0x20A);
    e.tick();
    assert_eq!(e.get_pc(), 0x20E);
    e.tick();
    assert_eq!(e.get_pc(), 0x210);
    e.tick();
    assert_eq!(e.get_pc(), 0x214);
    e.tick();
    assert_eq!(e.get_pc(), 0x216);
}

/// The blocking wait: with no key pressed the program counter does not
/// advance; with keys pressed, the lowest pressed index lands in the
/// register and the program counter moves on.
#[test]
fn blocking_wait_busy_polls() {
    let mut e = Emu::new();
    let prog = [0xF2u8, 0x0A];
    e.load(&prog);
    e.tick();
    assert_eq!(e.get_pc(), 0x200); // net zero advance
    e.tick();
    assert_eq!(e.get_pc(), 0x200); // still waiting
    e.keypress(9, true);
    e.keypress(3, true);
    e.tick();
    assert_eq!(e.get_pc(), 0x202);
    assert_eq!(e.get_register(2), 3); // lowest pressed index
}

/// Drawing the built-in glyph 0's top row: four lit cells, no collision.
#[test]
fn draw_sprite_row() {
    let mut e = Emu::new();
    e.execute(0x600A, 0); // v0 = 10 (x)
    e.execute(0x6105, 0); // v1 = 5 (y)
    e.execute(0xA000, 0); // i = 0: glyph 0, first row 0xF0
    e.execute(0xD011, 0); // draw 1 row
    let d = e.get_display();
    for c in 0..8 {
        assert_eq!(d[5 * 64 + 10 + c], c < 4);
    }
    assert_eq!(e.get_register(15), 0);
}

/// Drawing the identical sprite twice restores the display and reports a
/// collision the second time.
#[test]
fn draw_twice_is_involution() {
    let mut e = Emu::new();
    e.execute(0x600A, 0);
    e.execute(0x6105, 0);
    e.execute(0xA000, 0);
    e.execute(0xD015, 0); // whole glyph 0, five rows
    assert_eq!(e.get_register(15), 0);
    assert!(e.get_display().iter().any(|&c| c));
    e.execute(0xD015, 0); // identical draw
    assert_eq!(e.get_register(15), 1);
    assert!(e.get_display().iter().all(|&c| !c));
}

/// A sprite drawn at the last column wraps its overflow columns to the
/// left edge instead of clipping.
#[test]
fn draw_wraps_around_right_edge() {
    let mut e = Emu::new();
    e.execute(0x603F, 0); // v0 = 63
    e.execute(0x6100, 0); // v1 = 0
    e.execute(0xA000, 0); // glyph 0: row 0xF0 = bits at columns 0..4
    e.execute(0xD011, 0);
    let d = e.get_display();
    assert!(d[63]); // column 63
    assert!(d[0]); // wrapped
    assert!(d[1]);
    assert!(d[2]);
    assert!(!d[3]);
    assert_eq!(e.get_register(15), 0);
}

/// A sprite drawn at the bottom row wraps vertically.
#[test]
fn draw_wraps_around_bottom_edge() {
    let mut e = Emu::new();
    e.execute(0x6000, 0); // v0 = 0
    e.execute(0x611F, 0); // v1 = 31: last row
    e.execute(0xA000, 0);
    e.execute(0xD012, 0); // two rows: 0xF0 then 0x90
    let d = e.get_display();
    assert!(d[31 * 64]); // first row at y = 31
    assert!(d[0]); // second row wrapped to y = 0
    assert!(!d[1]);
    assert!(d[3]);
}

/// The clear-screen opcode darkens every cell.
#[test]
fn clear_screen_opcode() {
    let mut e = Emu::new();
    e.execute(0xA000, 0);
    e.execute(0xD013, 0);
    assert!(e.get_display().iter().any(|&c| c));
    e.execute(0x00E0, 0);
    assert!(e.get_display().iter().all(|&c| !c));
}

/// The upscaler blows each cell up to a 10x10 block, white for lit.
#[test]
fn upscaler_blocks() {
    let mut e = Emu::new();
    e.execute(0x6001, 0); // x = 1
    e.execute(0x6100, 0); // y = 0
    e.execute(0xA000, 0);
    e.execute(0xD011, 0); // lights cells (1..5, 0)
    let img = get_display_translated(e.get_display());
    assert_eq!(img.len(), SCREEN_WIDTH * SCREEN_HEIGHT * 100);
    // cell (0,0) is dark: its block is black
    assert_eq!(img[0], 0);
    assert_eq!(img[9], 0);
    // cell (1,0) is lit: every pixel of its 10x10 block is white
    for dy in 0..10 {
        for dx in 0..10 {
            assert_eq!(img[dy * SCREEN_WIDTH * 10 + 10 + dx], 0xFFFFFF);
        }
    }
    // below the first cell row, within block row 0 of cell row 1: dark
    assert_eq!(img[10 * SCREEN_WIDTH * 10 + 10], 0);
}
