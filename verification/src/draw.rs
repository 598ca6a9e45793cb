//! The sprite-draw opcode: XOR-toggling of frame-buffer cells with toroidal
//! wraparound, and the collision flag. The specification is pointwise: a cell
//! is toggled exactly when some set sprite pixel lands on it.

use vstd::prelude::*;
use vstd::arithmetic::div_mod::lemma_fundamental_div_mod;

use crate::state::Emu;
use crate::state::EmuState;
use crate::state::RAM_SIZE;
use crate::state::SCREEN_HEIGHT;
use crate::state::SCREEN_WIDTH;

verus! {

/// The weight of sprite column `col` within a sprite byte: the leftmost
/// pixel is the highest bit.
pub open spec fn col_weight(col: int) -> int {
    if col == 0 {
        128
    } else if col == 1 {
        64
    } else if col == 2 {
        32
    } else if col == 3 {
        16
    } else if col == 4 {
        8
    } else if col == 5 {
        4
    } else if col == 6 {
        2
    } else {
        1
    }
}

/// Whether sprite byte `b` has the pixel at column `col` set.
pub open spec fn sprite_bit(b: u8, col: int) -> bool {
    (b as int / col_weight(col)) % 2 == 1
}

/// The frame-buffer cell a sprite pixel lands on: both coordinates wrap
/// around the screen edges rather than clipping.
pub open spec fn target_cell(xc: u8, yc: u8, row: int, col: int) -> int {
    (xc + col) % (SCREEN_WIDTH as int) + (SCREEN_WIDTH as int) * ((yc + row) % (SCREEN_HEIGHT as int))
}

/// Whether some set sprite pixel strictly before position (r, c) in
/// row-major order lands on cell `j`. The sprite starts at memory address
/// `m.ireg`; its origin is the register pair (x, y).
pub open spec fn covered_before(m: EmuState, x: int, y: int, r: int, c: int, j: int) -> bool {
    exists|row: int, col: int|
        0 <= row && 0 <= col < 8 && (row < r || (row == r && col < c))
            && sprite_bit(m.ram[m.ireg + row], col)
            && target_cell(m.v[x], m.v[y], row, col) == j
}

/// Whether some set sprite pixel of the `n`-row sprite lands on cell `j`.
pub open spec fn covered(m: EmuState, x: int, y: int, n: int, j: int) -> bool {
    covered_before(m, x, y, n, 0, j)
}

/// Whether some set sprite pixel strictly before position (r, c) lands on a
/// cell that is lit in `m.screen`.
pub open spec fn collision_before(m: EmuState, x: int, y: int, r: int, c: int) -> bool {
    exists|row: int, col: int|
        0 <= row && 0 <= col < 8 && (row < r || (row == r && col < c))
            && sprite_bit(m.ram[m.ireg + row], col)
            && m.screen[target_cell(m.v[x], m.v[y], row, col)]
}

/// Whether the draw toggles any lit cell off: the collision flag.
pub open spec fn spec_collision(m: EmuState, x: int, y: int, n: int) -> bool {
    collision_before(m, x, y, n, 0)
}

/// The frame buffer after the draw: each covered cell is toggled.
pub open spec fn draw_screen(m: EmuState, x: int, y: int, n: int) -> Seq<bool> {
    Seq::new(m.screen.len(), |j: int| m.screen[j] != covered(m, x, y, n, j))
}

/// The whole machine after the draw opcode: the frame buffer is XOR-ed with
/// the sprite and the flag register records a collision.
pub open spec fn spec_draw(m: EmuState, x: int, y: int, n: int) -> EmuState {
    EmuState {
        screen: draw_screen(m, x, y, n),
        v: m.v.update(15, if spec_collision(m, x, y, n) { 1u8 } else { 0u8 }),
        ..m
    }
}

/// Adding distinct small offsets to the same base gives distinct residues.
proof fn lemma_mod_add_inj(base: int, divisor: int, c1: int, c2: int)
    requires
        divisor > 0,
        0 <= c1 < divisor,
        0 <= c2 < divisor,
        (base + c1) % divisor == (base + c2) % divisor,
    ensures
        c1 == c2,
{
    lemma_fundamental_div_mod(base + c1, divisor);
    lemma_fundamental_div_mod(base + c2, divisor);
    let q1 = (base + c1) / divisor;
    let q2 = (base + c2) / divisor;
    let rr = (base + c1) % divisor;
    assert(c1 == c2) by (nonlinear_arith)
        requires
            base + c1 == divisor * q1 + rr,
            base + c2 == divisor * q2 + rr,
            0 <= c1 < divisor,
            0 <= c2 < divisor,
            divisor > 0,
    ;
}

/// A cell index decomposes uniquely into a column and a row.
proof fn lemma_cell_decomp(a1: int, b1: int, a2: int, b2: int)
    requires
        0 <= a1 < 64,
        0 <= a2 < 64,
        a1 + 64 * b1 == a2 + 64 * b2,
    ensures
        a1 == a2,
        b1 == b2,
{
    assert(b1 == b2) by (nonlinear_arith)
        requires
            a1 + 64 * b1 == a2 + 64 * b2,
            0 <= a1 < 64,
            0 <= a2 < 64,
    ;
}

/// Within one draw, distinct sprite positions land on distinct cells.
proof fn lemma_target_inj(xc: u8, yc: u8, r1: int, c1: int, r2: int, c2: int)
    requires
        0 <= r1 < 32,
        0 <= r2 < 32,
        0 <= c1 < 8,
        0 <= c2 < 8,
        target_cell(xc, yc, r1, c1) == target_cell(xc, yc, r2, c2),
    ensures
        r1 == r2,
        c1 == c2,
{
    let a1 = (xc + c1) % 64;
    let a2 = (xc + c2) % 64;
    let b1 = (yc + r1) % 32;
    let b2 = (yc + r2) % 32;
    lemma_cell_decomp(a1, b1, a2, b2);
    lemma_mod_add_inj(xc as int, 64, c1, c2);
    lemma_mod_add_inj(yc as int, 32, r1, r2);
}

/// The cell that position (r, c) lands on is not covered by any earlier
/// sprite position.
proof fn lemma_no_prior_cover(m: EmuState, x: int, y: int, r: int, c: int, n: int)
    requires
        0 <= r < n <= 15,
        0 <= c < 8,
    ensures
        !covered_before(m, x, y, r, c, target_cell(m.v[x], m.v[y], r, c)),
{
    let j = target_cell(m.v[x], m.v[y], r, c);
    if covered_before(m, x, y, r, c, j) {
        let (row, col) = choose|row: int, col: int|
            0 <= row && 0 <= col < 8 && (row < r || (row == r && col < c))
                && sprite_bit(m.ram[m.ireg + row], col)
                && target_cell(m.v[x], m.v[y], row, col) == j;
        lemma_target_inj(m.v[x], m.v[y], row, col, r, c);
        assert(false);
    }
}

/// Extending the processed prefix by one position either leaves coverage of
/// a cell unchanged or adds exactly the new position's cell.
proof fn lemma_cover_step(m: EmuState, x: int, y: int, r: int, c: int, j: int)
    requires
        0 <= c < 8,
        0 <= r,
    ensures
        covered_before(m, x, y, r, c + 1, j) == (covered_before(m, x, y, r, c, j) || (
        sprite_bit(m.ram[m.ireg + r], c) && target_cell(m.v[x], m.v[y], r, c) == j)),
{
    if covered_before(m, x, y, r, c + 1, j) {
        let (row, col) = choose|row: int, col: int|
            0 <= row && 0 <= col < 8 && (row < r || (row == r && col < c + 1))
                && sprite_bit(m.ram[m.ireg + row], col)
                && target_cell(m.v[x], m.v[y], row, col) == j;
        if row == r && col == c {
        } else {
            assert(row < r || (row == r && col < c));
            assert(covered_before(m, x, y, r, c, j));
        }
    }
    if covered_before(m, x, y, r, c, j) {
        let (row, col) = choose|row: int, col: int|
            0 <= row && 0 <= col < 8 && (row < r || (row == r && col < c))
                && sprite_bit(m.ram[m.ireg + row], col)
                && target_cell(m.v[x], m.v[y], row, col) == j;
        assert(row < r || (row == r && col < c + 1));
        assert(covered_before(m, x, y, r, c + 1, j));
    }
    if sprite_bit(m.ram[m.ireg + r], c) && target_cell(m.v[x], m.v[y], r, c) == j {
        assert(covered_before(m, x, y, r, c + 1, j));
    }
}

/// The same, for the collision flag.
proof fn lemma_collision_step(m: EmuState, x: int, y: int, r: int, c: int)
    requires
        0 <= c < 8,
        0 <= r,
    ensures
        collision_before(m, x, y, r, c + 1) == (collision_before(m, x, y, r, c) || (
        sprite_bit(m.ram[m.ireg + r], c) && m.screen[target_cell(m.v[x], m.v[y], r, c)])),
{
    if collision_before(m, x, y, r, c + 1) {
        let (row, col) = choose|row: int, col: int|
            0 <= row && 0 <= col < 8 && (row < r || (row == r && col < c + 1))
                && sprite_bit(m.ram[m.ireg + row], col)
                && m.screen[target_cell(m.v[x], m.v[y], row, col)];
        if row == r && col == c {
        } else {
            assert(row < r || (row == r && col < c));
            assert(collision_before(m, x, y, r, c));
        }
    }
    if collision_before(m, x, y, r, c) {
        let (row, col) = choose|row: int, col: int|
            0 <= row && 0 <= col < 8 && (row < r || (row == r && col < c))
                && sprite_bit(m.ram[m.ireg + row], col)
                && m.screen[target_cell(m.v[x], m.v[y], row, col)];
        assert(collision_before(m, x, y, r, c + 1));
    }
    if sprite_bit(m.ram[m.ireg + r], c) && m.screen[target_cell(m.v[x], m.v[y], r, c)] {
        assert(collision_before(m, x, y, r, c + 1));
    }
}

/// A finished row prefix is the same set of positions as the start of the
/// next row.
proof fn lemma_row_roll(m: EmuState, x: int, y: int, r: int, j: int)
    ensures
        covered_before(m, x, y, r, 8, j) == covered_before(m, x, y, r + 1, 0, j),
        collision_before(m, x, y, r, 8) == collision_before(m, x, y, r + 1, 0),
{
    if covered_before(m, x, y, r, 8, j) {
        let (row, col) = choose|row: int, col: int|
            0 <= row && 0 <= col < 8 && (row < r || (row == r && col < 8))
                && sprite_bit(m.ram[m.ireg + row], col)
                && target_cell(m.v[x], m.v[y], row, col) == j;
        assert(row < r + 1);
        assert(covered_before(m, x, y, r + 1, 0, j));
    }
    if covered_before(m, x, y, r + 1, 0, j) {
        let (row, col) = choose|row: int, col: int|
            0 <= row && 0 <= col < 8 && row < r + 1
                && sprite_bit(m.ram[m.ireg + row], col)
                && target_cell(m.v[x], m.v[y], row, col) == j;
        assert(row < r || (row == r && col < 8));
        assert(covered_before(m, x, y, r, 8, j));
    }
    if collision_before(m, x, y, r, 8) {
        let (row, col) = choose|row: int, col: int|
            0 <= row && 0 <= col < 8 && (row < r || (row == r && col < 8))
                && sprite_bit(m.ram[m.ireg + row], col)
                && m.screen[target_cell(m.v[x], m.v[y], row, col)];
        assert(row < r + 1);
        assert(collision_before(m, x, y, r + 1, 0));
    }
    if collision_before(m, x, y, r + 1, 0) {
        let (row, col) = choose|row: int, col: int|
            0 <= row && 0 <= col < 8 && row < r + 1
                && sprite_bit(m.ram[m.ireg + row], col)
                && m.screen[target_cell(m.v[x], m.v[y], row, col)];
        assert(row < r || (row == r && col < 8));
        assert(collision_before(m, x, y, r, 8));
    }
}

/// The executable weight of a sprite column.
fn weight_of(col: usize) -> (w: u8)
    requires
        col < 8,
    ensures
        w == col_weight(col as int),
{
    if col == 0 {
        128
    } else if col == 1 {
        64
    } else if col == 2 {
        32
    } else if col == 3 {
        16
    } else if col == 4 {
        8
    } else if col == 5 {
        4
    } else if col == 6 {
        2
    } else {
        1
    }
}

impl Emu {
    /// The draw opcode: XOR the `n`-row sprite at memory address `ireg` onto
    /// the frame buffer at the coordinates held in registers `x` and `y`,
    /// and set the flag register to 1 exactly when a lit cell was toggled
    /// off.
    pub(crate) fn op_draw(&mut self, x: usize, y: usize, n: usize)
        requires
            old(self)@.wf(),
            x < 16,
            y < 16,
            n <= 15,
            old(self)@.ireg + n <= RAM_SIZE,
        ensures
            final(self)@ == spec_draw(old(self)@, x as int, y as int, n as int),
            final(self)@.wf(),
    {
        let ghost m0 = self@;
        let xc: u8 = self.v_reg[x];
        let yc: u8 = self.v_reg[y];
        let mut flipped = false;
        let mut row: usize = 0;
        while row < n
            invariant
                m0.wf(),
                x < 16,
                y < 16,
                n <= 15,
                m0.ireg + n <= RAM_SIZE,
                xc == m0.v[x as int],
                yc == m0.v[y as int],
                row <= n,
                self@ == (EmuState { screen: self@.screen, ..m0 }),
                self@.screen.len() == m0.screen.len(),
                forall|j: int|
                    0 <= j < m0.screen.len() ==> self@.screen[j] == (m0.screen[j]
                        != covered_before(m0, x as int, y as int, row as int, 0, j)),
                flipped == collision_before(m0, x as int, y as int, row as int, 0),
            decreases n - row,
        {
            let pixels: u8 = self.ram[self.i_reg as usize + row];
            assert(pixels == m0.ram[m0.ireg + row]);
            let mut col: usize = 0;
            while col < 8
                invariant
                    m0.wf(),
                    x < 16,
                    y < 16,
                    n <= 15,
                    m0.ireg + n <= RAM_SIZE,
                    xc == m0.v[x as int],
                    yc == m0.v[y as int],
                    row < n,
                    col <= 8,
                    pixels == m0.ram[m0.ireg + row],
                    self@ == (EmuState { screen: self@.screen, ..m0 }),
                    self@.screen.len() == m0.screen.len(),
                    forall|j: int|
                        0 <= j < m0.screen.len() ==> self@.screen[j] == (m0.screen[j]
                            != covered_before(m0, x as int, y as int, row as int, col as int, j)),
                    flipped == collision_before(m0, x as int, y as int, row as int, col as int),
                decreases 8 - col,
            {
                let w = weight_of(col);
                proof {
                    lemma_cover_step(m0, x as int, y as int, row as int, col as int, 0);
                    lemma_collision_step(m0, x as int, y as int, row as int, col as int);
                }
                if (pixels / w) % 2 == 1 {
                    let tx: usize = (xc as usize + col) % SCREEN_WIDTH;
                    let ty: usize = (yc as usize + row) % SCREEN_HEIGHT;
                    let idx: usize = tx + SCREEN_WIDTH * ty;
                    proof {
                        assert(idx == target_cell(m0.v[x as int], m0.v[y as int], row as int, col as int));
                        lemma_no_prior_cover(m0, x as int, y as int, row as int, col as int, n as int);
                    }
                    let cur = self.screen[idx];
                    assert(cur == m0.screen[idx as int]);
                    flipped = flipped || cur;
                    self.screen.set(idx, !cur);
                    proof {
                        assert forall|j: int| 0 <= j < m0.screen.len() implies self@.screen[j] == (
                        m0.screen[j] != covered_before(
                            m0,
                            x as int,
                            y as int,
                            row as int,
                            col as int + 1,
                            j,
                        )) by {
                            lemma_cover_step(m0, x as int, y as int, row as int, col as int, j);
                        }
                        lemma_collision_step(m0, x as int, y as int, row as int, col as int);
                    }
                } else {
                    proof {
                        assert forall|j: int| 0 <= j < m0.screen.len() implies self@.screen[j] == (
                        m0.screen[j] != covered_before(
                            m0,
                            x as int,
                            y as int,
                            row as int,
                            col as int + 1,
                            j,
                        )) by {
                            lemma_cover_step(m0, x as int, y as int, row as int, col as int, j);
                        }
                    }
                }
                col = col + 1;
            }
            proof {
                assert forall|j: int| 0 <= j < m0.screen.len() implies self@.screen[j] == (
                m0.screen[j] != covered_before(m0, x as int, y as int, row as int + 1, 0, j)) by {
                    lemma_row_roll(m0, x as int, y as int, row as int, j);
                }
                lemma_row_roll(m0, x as int, y as int, row as int, 0);
            }
            row = row + 1;
        }
        if flipped {
            self.v_reg.set(15, 1);
        } else {
            self.v_reg.set(15, 0);
        }
        proof {
            assert(self@.screen =~= draw_screen(m0, x as int, y as int, n as int));
            assert(self@ =~= spec_draw(m0, x as int, y as int, n as int));
        }
    }
}

} // verus!
