//! Proved laws of the instruction semantics.
//!
//! Each public proof function states a property of [`spec_step`] (or of the
//! draw semantics) for every machine state the property speaks of, and Verus
//! checks the proof against the definitions in [`crate::machine`].

use vstd::prelude::*;

use crate::machine::State;
use crate::machine::op_family;
use crate::machine::op_kk;
use crate::machine::op_n;
use crate::machine::op_x;
use crate::machine::op_y;
use crate::machine::regs_loaded;
use crate::machine::regs_stored;
use crate::machine::row_coll;
use crate::machine::row_grid;
use crate::machine::spec_fetch;
use crate::machine::spec_step;
use crate::machine::sprite_bit;
use crate::machine::sprite_coll;
use crate::machine::sprite_grid;
use crate::surface::all_unset;
use crate::surface::cell_at;

verus! {

// ---------------------------------------------------------------------------
// Arithmetic helpers
// ---------------------------------------------------------------------------

/// Wrapping an offset below the modulus is injective: two distinct offsets
/// from the same base land on distinct wrapped values.
proof fn lemma_wrap_inj(p: int, c1: int, c2: int, m: int)
    requires
        0 < m,
        0 <= p,
        0 <= c1 < m,
        0 <= c2 < m,
        (p + c1) % m == (p + c2) % m,
    ensures
        c1 == c2,
{
    let a = p + c1;
    let b = p + c2;
    vstd::arithmetic::div_mod::lemma_fundamental_div_mod(a, m);
    vstd::arithmetic::div_mod::lemma_fundamental_div_mod(b, m);
    let qa = a / m;
    let qb = b / m;
    assert(a - b == m * (qa - qb)) by (nonlinear_arith)
        requires
            a == m * qa + a % m,
            b == m * qb + b % m,
            a % m == b % m,
    ;
    assert(qa == qb) by (nonlinear_arith)
        requires
            a - b == m * (qa - qb),
            -m < a - b < m,
            0 < m,
    ;
}

/// Distinct in-range coordinates give distinct row-major cell indices.
proof fn lemma_cell_at_inj(x1: int, y1: int, x2: int, y2: int)
    requires
        0 <= x1 < 64,
        0 <= x2 < 64,
        0 <= y1 < 32,
        0 <= y2 < 32,
        cell_at(x1, y1) == cell_at(x2, y2),
    ensures
        x1 == x2,
        y1 == y2,
{
}

// ---------------------------------------------------------------------------
// Register arithmetic laws
// ---------------------------------------------------------------------------

/// After `7xkk`, `Vx` holds `(Vx + kk) mod 256` and, unless `Vx` is the flag
/// register itself, `VF` is untouched.
pub proof fn lemma_add_immediate(s: State, rnd: u8)
    requires
        s.wf(),
        op_family(spec_fetch(s)) == 7,
    ensures
        spec_step(s, rnd).v[op_x(spec_fetch(s))] == (s.v[op_x(spec_fetch(s))] + op_kk(
            spec_fetch(s),
        )) % 256,
        op_x(spec_fetch(s)) != 15 ==> spec_step(s, rnd).v[15] == s.v[15],
{
}

/// After `8xy4`, `VF` is 1 exactly when the unwrapped sum exceeds 255, and
/// `Vx` (when it is not the flag register itself) holds the wrapped sum.
pub proof fn lemma_add_registers(s: State, rnd: u8)
    requires
        s.wf(),
        op_family(spec_fetch(s)) == 8,
        op_n(spec_fetch(s)) == 4,
    ensures
        spec_step(s, rnd).v[15] == (if s.v[op_x(spec_fetch(s))] + s.v[op_y(spec_fetch(s))] > 255 {
            1u8
        } else {
            0u8
        }),
        op_x(spec_fetch(s)) != 15 ==> spec_step(s, rnd).v[op_x(spec_fetch(s))] == (s.v[op_x(
            spec_fetch(s),
        )] + s.v[op_y(spec_fetch(s))]) % 256,
{
}

/// After `8xy5`, `VF` is 1 exactly when `Vx > Vy` (the borrow flag computed
/// before the subtraction), and `Vx` (when it is not the flag register
/// itself) holds the wrapped difference.
pub proof fn lemma_sub_registers(s: State, rnd: u8)
    requires
        s.wf(),
        op_family(spec_fetch(s)) == 8,
        op_n(spec_fetch(s)) == 5,
    ensures
        spec_step(s, rnd).v[15] == (if s.v[op_x(spec_fetch(s))] > s.v[op_y(spec_fetch(s))] {
            1u8
        } else {
            0u8
        }),
        op_x(spec_fetch(s)) != 15 ==> spec_step(s, rnd).v[op_x(spec_fetch(s))] == (s.v[op_x(
            spec_fetch(s),
        )] - s.v[op_y(spec_fetch(s))]) % 256,
{
}

// ---------------------------------------------------------------------------
// Register block store/load round trip
// ---------------------------------------------------------------------------

/// Values written by a register-block store: register `Vk` lands at the
/// wrapped address `i + k`, and these sixteen-at-most addresses are distinct.
proof fn lemma_regs_stored_values(mem: Seq<u8>, v: Seq<u8>, i: int, x: int)
    requires
        mem.len() == 4096,
        v.len() == 16,
        0 <= i < 4096,
        0 <= x < 16,
    ensures
        regs_stored(mem, v, i, x).len() == 4096,
        forall|k: int| 0 <= k <= x ==> regs_stored(mem, v, i, x)[(i + k) % 4096] == v[k],
    decreases x,
{
    if x == 0 {
        assert(regs_stored(mem, v, i, -1) == mem);
        assert(regs_stored(mem, v, i, 0) == mem.update(i % 4096, v[0]));
    } else {
        lemma_regs_stored_values(mem, v, i, x - 1);
        assert forall|k: int| 0 <= k <= x implies regs_stored(mem, v, i, x)[(i + k) % 4096] == v[k] by {
            if k < x && (i + k) % 4096 == (i + x) % 4096 {
                lemma_wrap_inj(i, k, x, 4096);
            }
        }
    }
}

/// Values read by a register-block load: register `Vk` receives the byte at
/// the wrapped address `i + k`, and higher registers keep their values.
proof fn lemma_regs_loaded_values(v: Seq<u8>, mem: Seq<u8>, i: int, x: int)
    requires
        v.len() == 16,
        mem.len() == 4096,
        0 <= i < 4096,
        0 <= x < 16,
    ensures
        regs_loaded(v, mem, i, x).len() == 16,
        forall|k: int| 0 <= k <= x ==> regs_loaded(v, mem, i, x)[k] == mem[(i + k) % 4096],
        forall|k: int| x < k < 16 ==> regs_loaded(v, mem, i, x)[k] == v[k],
    decreases x,
{
    if x == 0 {
        assert(regs_loaded(v, mem, i, -1) == v);
        assert(regs_loaded(v, mem, i, 0) == v.update(0, mem[i % 4096]));
    } else {
        lemma_regs_loaded_values(v, mem, i, x - 1);
    }
}

/// Round trip: a register-block store (`Fx55`) followed by a register-block
/// load (`Fx65`) with the same `x` and the same index register restores all
/// sixteen registers to their prior values.
pub proof fn lemma_store_load_round_trip(s: State, r1: u8, r2: u8)
    requires
        s.wf(),
        op_family(spec_fetch(s)) == 15,
        op_kk(spec_fetch(s)) == 0x55,
        op_family(spec_fetch(spec_step(s, r1))) == 15,
        op_kk(spec_fetch(spec_step(s, r1))) == 0x65,
        op_x(spec_fetch(spec_step(s, r1))) == op_x(spec_fetch(s)),
    ensures
        spec_step(spec_step(s, r1), r2).v =~= s.v,
{
    let x = op_x(spec_fetch(s));
    let s1 = spec_step(s, r1);
    assert(s1.mem == regs_stored(s.mem, s.v, s.i, x));
    assert(s1.v == s.v);
    assert(s1.i == s.i);
    lemma_regs_stored_values(s.mem, s.v, s.i, x);
    let s2 = spec_step(s1, r2);
    assert(s2.v == regs_loaded(s.v, s1.mem, s.i, x));
    lemma_regs_loaded_values(s.v, s1.mem, s.i, x);
    assert forall|k: int| 0 <= k < 16 implies s2.v[k] == s.v[k] by {
        if k <= x {
            assert(s2.v[k] == s1.mem[(s.i + k) % 4096]);
            assert(s1.mem[(s.i + k) % 4096] == s.v[k]);
        }
    }
}

// ---------------------------------------------------------------------------
// Draw: pointwise characterization and the double-draw law
// ---------------------------------------------------------------------------

/// Whether one of the first `c` columns of sprite byte `b`, drawn on row
/// `cy` starting at column `px`, covers `cell` with a set sprite bit.
pub open spec fn row_hits(b: u8, px: int, cy: int, c: int, cell: int) -> bool {
    exists|col: int| 0 <= col < c && sprite_bit(b, col) && cell == cell_at((px + col) % 64, cy)
}

/// Whether sprite row `row` (its byte fetched from memory, its grid row
/// wrapped) covers `cell` with a set bit.
pub open spec fn sprite_row_hits(
    mem: Seq<u8>,
    i: int,
    px: int,
    py: int,
    row: int,
    cell: int,
) -> bool {
    row_hits(mem[(i + row) % 4096], px, (py + row) % 32, 8, cell)
}

/// Whether one of the first `r` sprite rows covers `cell` with a set bit.
pub open spec fn sprite_hits(mem: Seq<u8>, i: int, px: int, py: int, r: int, cell: int) -> bool {
    exists|row: int| 0 <= row < r && #[trigger] sprite_row_hits(mem, i, px, py, row, cell)
}

/// Drawing one sprite row is a pointwise XOR with its hit mask, and its
/// collision signal fires exactly when the mask meets a set cell.
proof fn lemma_row_chars(g: Seq<bool>, b: u8, px: int, cy: int, c: int)
    requires
        g.len() == 2048,
        0 <= px,
        0 <= cy < 32,
        0 <= c <= 8,
    ensures
        row_grid(g, b, px, cy, c).len() == 2048,
        forall|cell: int|
            0 <= cell < 2048 ==> row_grid(g, b, px, cy, c)[cell] == (g[cell] != row_hits(
                b,
                px,
                cy,
                c,
                cell,
            )),
        row_coll(g, b, px, cy, c) == (exists|cell: int|
            0 <= cell < 2048 && row_hits(b, px, cy, c, cell) && g[cell]),
    decreases c,
{
    if c == 0 {
        assert forall|cell: int| 0 <= cell < 2048 implies !row_hits(b, px, cy, 0, cell) by {}
        assert(!(exists|cell: int| 0 <= cell < 2048 && row_hits(b, px, cy, 0, cell) && g[cell]));
    } else {
        lemma_row_chars(g, b, px, cy, c - 1);
        let prev = row_grid(g, b, px, cy, c - 1);
        let cur = row_grid(g, b, px, cy, c);
        let col = c - 1;
        if sprite_bit(b, col) {
            let cx = (px + col) % 64;
            let idx = cell_at(cx, cy);
            assert(0 <= cx < 64);
            assert(0 <= idx < 2048);
            // No earlier column lands on this cell.
            assert(!row_hits(b, px, cy, c - 1, idx)) by {
                if row_hits(b, px, cy, c - 1, idx) {
                    let col2 = choose|col2: int|
                        0 <= col2 < c - 1 && sprite_bit(b, col2) && idx == cell_at(
                            (px + col2) % 64,
                            cy,
                        );
                    lemma_cell_at_inj((px + col2) % 64, cy, cx, cy);
                    lemma_wrap_inj(px, col2, col, 64);
                    assert(false);
                }
            }
            assert(prev[idx] == g[idx]);
            assert forall|cell: int|
                0 <= cell < 2048 implies cur[cell] == (g[cell] != row_hits(b, px, cy, c, cell)) by {
                if cell == idx {
                    assert(row_hits(b, px, cy, c, idx)) by {
                        assert(0 <= col < c && sprite_bit(b, col) && idx == cell_at(
                            (px + col) % 64,
                            cy,
                        ));
                    }
                    assert(cur[idx] == !prev[idx]);
                } else {
                    assert(cur[cell] == prev[cell]);
                    if row_hits(b, px, cy, c, cell) {
                        let col2 = choose|col2: int|
                            0 <= col2 < c && sprite_bit(b, col2) && cell == cell_at(
                                (px + col2) % 64,
                                cy,
                            );
                        if col2 == col {
                            assert(cell == idx);
                            assert(false);
                        }
                        assert(row_hits(b, px, cy, c - 1, cell));
                    }
                    if row_hits(b, px, cy, c - 1, cell) {
                        let col2 = choose|col2: int|
                            0 <= col2 < c - 1 && sprite_bit(b, col2) && cell == cell_at(
                                (px + col2) % 64,
                                cy,
                            );
                        assert(0 <= col2 < c && sprite_bit(b, col2) && cell == cell_at(
                            (px + col2) % 64,
                            cy,
                        ));
                    }
                }
            }
            // Collision: the new toggle contributes exactly `g[idx]`.
            assert(row_coll(g, b, px, cy, c) == (row_coll(g, b, px, cy, c - 1) || g[idx]));
            if row_coll(g, b, px, cy, c) {
                if row_coll(g, b, px, cy, c - 1) {
                    let cw = choose|cw: int|
                        0 <= cw < 2048 && row_hits(b, px, cy, c - 1, cw) && g[cw];
                    assert(row_hits(b, px, cy, c, cw)) by {
                        let col2 = choose|col2: int|
                            0 <= col2 < c - 1 && sprite_bit(b, col2) && cw == cell_at(
                                (px + col2) % 64,
                                cy,
                            );
                        assert(0 <= col2 < c && sprite_bit(b, col2) && cw == cell_at(
                            (px + col2) % 64,
                            cy,
                        ));
                    }
                    assert(0 <= cw < 2048 && row_hits(b, px, cy, c, cw) && g[cw]);
                } else {
                    assert(g[idx]);
                    assert(row_hits(b, px, cy, c, idx)) by {
                        assert(0 <= col < c && sprite_bit(b, col) && idx == cell_at(
                            (px + col) % 64,
                            cy,
                        ));
                    }
                    assert(0 <= idx < 2048 && row_hits(b, px, cy, c, idx) && g[idx]);
                }
            }
            if exists|cell: int| 0 <= cell < 2048 && row_hits(b, px, cy, c, cell) && g[cell] {
                let cw = choose|cw: int| 0 <= cw < 2048 && row_hits(b, px, cy, c, cw) && g[cw];
                let col2 = choose|col2: int|
                    0 <= col2 < c && sprite_bit(b, col2) && cw == cell_at((px + col2) % 64, cy);
                if col2 == col {
                    assert(cw == idx);
                    assert(row_coll(g, b, px, cy, c));
                } else {
                    assert(row_hits(b, px, cy, c - 1, cw)) by {
                        assert(0 <= col2 < c - 1 && sprite_bit(b, col2) && cw == cell_at(
                            (px + col2) % 64,
                            cy,
                        ));
                    }
                    assert(0 <= cw < 2048 && row_hits(b, px, cy, c - 1, cw) && g[cw]);
                    assert(row_coll(g, b, px, cy, c - 1));
                }
            }
        } else {
            // This column draws nothing: the hit mask does not grow.
            assert forall|cell: int| 0 <= cell < 2048 implies row_hits(b, px, cy, c, cell)
                == row_hits(b, px, cy, c - 1, cell) by {
                if row_hits(b, px, cy, c, cell) {
                    let col2 = choose|col2: int|
                        0 <= col2 < c && sprite_bit(b, col2) && cell == cell_at(
                            (px + col2) % 64,
                            cy,
                        );
                    assert(col2 != col);
                    assert(0 <= col2 < c - 1 && sprite_bit(b, col2) && cell == cell_at(
                        (px + col2) % 64,
                        cy,
                    ));
                }
                if row_hits(b, px, cy, c - 1, cell) {
                    let col2 = choose|col2: int|
                        0 <= col2 < c - 1 && sprite_bit(b, col2) && cell == cell_at(
                            (px + col2) % 64,
                            cy,
                        );
                    assert(0 <= col2 < c && sprite_bit(b, col2) && cell == cell_at(
                        (px + col2) % 64,
                        cy,
                    ));
                }
            }
            assert((exists|cell: int| 0 <= cell < 2048 && row_hits(b, px, cy, c, cell) && g[cell])
                == (exists|cell: int|
                0 <= cell < 2048 && row_hits(b, px, cy, c - 1, cell) && g[cell])) by {
                if exists|cell: int| 0 <= cell < 2048 && row_hits(b, px, cy, c, cell) && g[cell] {
                    let cw = choose|cw: int|
                        0 <= cw < 2048 && row_hits(b, px, cy, c, cw) && g[cw];
                    assert(0 <= cw < 2048 && row_hits(b, px, cy, c - 1, cw) && g[cw]);
                }
                if exists|cell: int|
                    0 <= cell < 2048 && row_hits(b, px, cy, c - 1, cell) && g[cell] {
                    let cw = choose|cw: int|
                        0 <= cw < 2048 && row_hits(b, px, cy, c - 1, cw) && g[cw];
                    assert(0 <= cw < 2048 && row_hits(b, px, cy, c, cw) && g[cw]);
                }
            }
        }
    }
}

/// A cell covered by a row mask lies on that row.
proof fn lemma_row_hits_row(b: u8, px: int, cy: int, cell: int)
    requires
        0 <= px,
        0 <= cy < 32,
        row_hits(b, px, cy, 8, cell),
    ensures
        0 <= cell < 2048,
        cell / 64 == cy,
{
    let col = choose|col: int|
        0 <= col < 8 && sprite_bit(b, col) && cell == cell_at((px + col) % 64, cy);
    assert(cell == cy * 64 + (px + col) % 64);
}

/// Drawing a sprite is a pointwise XOR with its hit mask, and the collision
/// flag fires exactly when the mask meets a set cell.
proof fn lemma_sprite_chars(g: Seq<bool>, mem: Seq<u8>, i: int, px: int, py: int, r: int)
    requires
        g.len() == 2048,
        mem.len() == 4096,
        0 <= i < 4096,
        0 <= px,
        0 <= py,
        0 <= r <= 16,
    ensures
        sprite_grid(g, mem, i, px, py, r).len() == 2048,
        forall|cell: int|
            0 <= cell < 2048 ==> sprite_grid(g, mem, i, px, py, r)[cell] == (g[cell] != sprite_hits(
                mem,
                i,
                px,
                py,
                r,
                cell,
            )),
        sprite_coll(g, mem, i, px, py, r) == (exists|cell: int|
            0 <= cell < 2048 && sprite_hits(mem, i, px, py, r, cell) && g[cell]),
    decreases r,
{
    if r == 0 {
        assert forall|cell: int| 0 <= cell < 2048 implies !sprite_hits(mem, i, px, py, 0, cell) by {}
        assert(!(exists|cell: int|
            0 <= cell < 2048 && sprite_hits(mem, i, px, py, 0, cell) && g[cell]));
    } else {
        lemma_sprite_chars(g, mem, i, px, py, r - 1);
        let prev = sprite_grid(g, mem, i, px, py, r - 1);
        let cur = sprite_grid(g, mem, i, px, py, r);
        let row = r - 1;
        let b = mem[(i + row) % 4096];
        let cy = (py + row) % 32;
        lemma_row_chars(prev, b, px, cy, 8);
        // Cells of this row are untouched by the earlier rows.
        assert forall|cell: int|
            0 <= cell < 2048 && row_hits(b, px, cy, 8, cell) implies !sprite_hits(
            mem,
            i,
            px,
            py,
            r - 1,
            cell,
        ) by {
            lemma_row_hits_row(b, px, cy, cell);
            if sprite_hits(mem, i, px, py, r - 1, cell) {
                let row2 = choose|row2: int|
                    0 <= row2 < r - 1 && sprite_row_hits(mem, i, px, py, row2, cell);
                lemma_row_hits_row(mem[(i + row2) % 4096], px, (py + row2) % 32, cell);
                lemma_wrap_inj(py, row2, row, 32);
                assert(false);
            }
        }
        assert forall|cell: int|
            0 <= cell < 2048 implies cur[cell] == (g[cell] != sprite_hits(mem, i, px, py, r, cell))
            by {
            assert(cur[cell] == (prev[cell] != row_hits(b, px, cy, 8, cell)));
            // The combined mask is the disjoint union of the two masks.
            if row_hits(b, px, cy, 8, cell) {
                assert(!sprite_hits(mem, i, px, py, r - 1, cell));
                assert(sprite_hits(mem, i, px, py, r, cell)) by {
                    assert(0 <= row < r && sprite_row_hits(mem, i, px, py, row, cell));
                }
            } else {
                if sprite_hits(mem, i, px, py, r, cell) {
                    let row2 = choose|row2: int|
                        0 <= row2 < r && sprite_row_hits(mem, i, px, py, row2, cell);
                    if row2 == row {
                        assert(false);
                    }
                    assert(sprite_hits(mem, i, px, py, r - 1, cell)) by {
                        assert(0 <= row2 < r - 1 && sprite_row_hits(mem, i, px, py, row2, cell));
                    }
                }
                if sprite_hits(mem, i, px, py, r - 1, cell) {
                    let row2 = choose|row2: int|
                        0 <= row2 < r - 1 && sprite_row_hits(mem, i, px, py, row2, cell);
                    assert(sprite_hits(mem, i, px, py, r, cell)) by {
                        assert(0 <= row2 < r && sprite_row_hits(mem, i, px, py, row2, cell));
                    }
                }
            }
        }
        // Collision: this row's signal reads the original values of its own
        // cells, so the combined signal is the union over the combined mask.
        assert(sprite_coll(g, mem, i, px, py, r) == (sprite_coll(g, mem, i, px, py, r - 1)
            || row_coll(prev, b, px, cy, 8)));
        if sprite_coll(g, mem, i, px, py, r) {
            if sprite_coll(g, mem, i, px, py, r - 1) {
                let cw = choose|cw: int|
                    0 <= cw < 2048 && sprite_hits(mem, i, px, py, r - 1, cw) && g[cw];
                assert(sprite_hits(mem, i, px, py, r, cw)) by {
                    let row2 = choose|row2: int|
                        0 <= row2 < r - 1 && sprite_row_hits(mem, i, px, py, row2, cw);
                    assert(0 <= row2 < r && sprite_row_hits(mem, i, px, py, row2, cw));
                }
                assert(0 <= cw < 2048 && sprite_hits(mem, i, px, py, r, cw) && g[cw]);
            } else {
                let cw = choose|cw: int| 0 <= cw < 2048 && row_hits(b, px, cy, 8, cw) && prev[cw];
                assert(!sprite_hits(mem, i, px, py, r - 1, cw));
                assert(prev[cw] == g[cw]);
                assert(sprite_hits(mem, i, px, py, r, cw)) by {
                    assert(0 <= row < r && sprite_row_hits(mem, i, px, py, row, cw));
                }
                assert(0 <= cw < 2048 && sprite_hits(mem, i, px, py, r, cw) && g[cw]);
            }
        }
        if exists|cell: int| 0 <= cell < 2048 && sprite_hits(mem, i, px, py, r, cell) && g[cell] {
            let cw = choose|cw: int|
                0 <= cw < 2048 && sprite_hits(mem, i, px, py, r, cw) && g[cw];
            let row2 = choose|row2: int|
                0 <= row2 < r && sprite_row_hits(mem, i, px, py, row2, cw);
            if row2 == row {
                assert(!sprite_hits(mem, i, px, py, r - 1, cw));
                assert(prev[cw] == g[cw]);
                assert(0 <= cw < 2048 && row_hits(b, px, cy, 8, cw) && prev[cw]);
                assert(row_coll(prev, b, px, cy, 8));
            } else {
                assert(sprite_hits(mem, i, px, py, r - 1, cw)) by {
                    assert(0 <= row2 < r - 1 && sprite_row_hits(mem, i, px, py, row2, cw));
                }
                assert(0 <= cw < 2048 && sprite_hits(mem, i, px, py, r - 1, cw) && g[cw]);
                assert(sprite_coll(g, mem, i, px, py, r - 1));
            }
        }
    }
}

/// Drawing the same sprite at the same location twice restores the grid, and
/// on an initially blank grid the second draw reports a collision exactly
/// when the first draw lit any pixel.
pub proof fn lemma_draw_twice_restores(
    g: Seq<bool>,
    mem: Seq<u8>,
    i: int,
    px: int,
    py: int,
    n: int,
)
    requires
        g.len() == 2048,
        mem.len() == 4096,
        0 <= i < 4096,
        0 <= px,
        0 <= py,
        0 <= n <= 16,
    ensures
        sprite_grid(sprite_grid(g, mem, i, px, py, n), mem, i, px, py, n) =~= g,
        all_unset(g) ==> (sprite_coll(sprite_grid(g, mem, i, px, py, n), mem, i, px, py, n)
            <==> !all_unset(sprite_grid(g, mem, i, px, py, n))),
{
    let g1 = sprite_grid(g, mem, i, px, py, n);
    lemma_sprite_chars(g, mem, i, px, py, n);
    lemma_sprite_chars(g1, mem, i, px, py, n);
    let g2 = sprite_grid(g1, mem, i, px, py, n);
    assert forall|cell: int| 0 <= cell < 2048 implies g2[cell] == g[cell] by {
        assert(g1[cell] == (g[cell] != sprite_hits(mem, i, px, py, n, cell)));
        assert(g2[cell] == (g1[cell] != sprite_hits(mem, i, px, py, n, cell)));
    }
    if all_unset(g) {
        if sprite_coll(g1, mem, i, px, py, n) {
            let cw = choose|cw: int|
                0 <= cw < 2048 && sprite_hits(mem, i, px, py, n, cw) && g1[cw];
            assert(!all_unset(g1));
        }
        if !all_unset(g1) {
            let cw = choose|cw: int| 0 <= cw < 2048 && g1[cw];
            assert(sprite_hits(mem, i, px, py, n, cw));
            assert(0 <= cw < 2048 && sprite_hits(mem, i, px, py, n, cw) && g1[cw]);
            assert(sprite_coll(g1, mem, i, px, py, n));
        }
    }
}

/// The same law at the instruction level: executing one `Dxyn` draw twice in
/// succession (neither operand register being the flag register) restores
/// the grid, and from a blank grid the second draw sets the collision flag
/// exactly when the first draw lit any pixel.
pub proof fn lemma_draw_twice_step(s: State, r1: u8, r2: u8)
    requires
        s.wf(),
        op_family(spec_fetch(s)) == 13,
        op_x(spec_fetch(s)) != 15,
        op_y(spec_fetch(s)) != 15,
        spec_fetch(spec_step(s, r1)) == spec_fetch(s),
    ensures
        spec_step(spec_step(s, r1), r2).grid =~= s.grid,
        all_unset(s.grid) ==> (spec_step(spec_step(s, r1), r2).v[15] == 1 <==> !all_unset(
            spec_step(s, r1).grid,
        )),
{
    let instr = spec_fetch(s);
    let x = op_x(instr);
    let y = op_y(instr);
    let n = op_n(instr);
    let px = s.v[x] as int;
    let py = s.v[y] as int;
    let s1 = spec_step(s, r1);
    assert(s1.grid == sprite_grid(s.grid, s.mem, s.i, px, py, n));
    assert(s1.mem == s.mem);
    assert(s1.i == s.i);
    assert(s1.v[x] == s.v[x]);
    assert(s1.v[y] == s.v[y]);
    let s2 = spec_step(s1, r2);
    assert(s2.grid == sprite_grid(s1.grid, s.mem, s.i, px, py, n));
    assert(s2.v[15] == (if sprite_coll(s1.grid, s.mem, s.i, px, py, n) {
        1u8
    } else {
        0u8
    }));
    lemma_draw_twice_restores(s.grid, s.mem, s.i, px, py, n);
}

} // verus!

