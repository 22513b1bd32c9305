//! Laws of the instruction semantics, each proved once and for all from the
//! one-step model in `semantics`.

use vstd::prelude::*;

use crate::display::pix_index;
use crate::instr::{Instr, sets_pc, spec_decode};
use crate::semantics::{
    CpuState, ExecError, advance_pc, col_covers, cols_collide, exec_instr_spec, fb_draw_cols,
    fb_draw_rows, fetched_opcode, rows_collide, sprite_bit, sprite_cell, sprite_covers,
    sprite_pixel, step_spec, tick_spec,
};

verus! {

/// A cycle that dispatches anything but a jump, call, return or skip —
/// an undefined word included, since it is reported and skipped — leaves the
/// program counter exactly two bytes past where it was.
#[verifier::rlimit(100)]
pub proof fn lemma_pc_advances_by_two(s: CpuState, rand: u8)
    requires
        s.wf(),
        s.mode is Running,
        s.pc < 4095,
        match spec_decode(fetched_opcode(s)) {
            Some(i) => !sets_pc(i),
            None => true,
        },
    ensures
        match step_spec(s, rand) {
            Ok((s2, _)) => s2.pc == s.pc + 2,
            Err(_) => true,
        },
{
    reveal(exec_instr_spec);
}

/// `8xy4`: the carry flag is 1 exactly when `Vx + Vy` exceeds 255, and the
/// result register receives the sum truncated to eight bits.
pub proof fn lemma_add_carry(s: CpuState, x: u8, y: u8, rand: u8)
    requires
        s.wf(),
        x < 16,
        y < 16,
    ensures
        match exec_instr_spec(s, Instr::Add { x, y }, rand) {
            Ok(s2) => {
                let sum = s.regs[x as int] + s.regs[y as int];
                &&& s2.regs[15] == (if sum > 255 {
                    1u8
                } else {
                    0u8
                })
                &&& (x != 15 ==> s2.regs[x as int] == sum % 256)
            },
            Err(_) => false,
        },
{
    reveal(exec_instr_spec);
}

/// `8xy5`: the flag is 1 exactly when there is no borrow (`Vx >= Vy`), and
/// the result register receives `(Vx - Vy) mod 256` whatever the sign.
pub proof fn lemma_sub_borrow(s: CpuState, x: u8, y: u8, rand: u8)
    requires
        s.wf(),
        x < 16,
        y < 16,
    ensures
        match exec_instr_spec(s, Instr::Sub { x, y }, rand) {
            Ok(s2) => {
                let vx = s.regs[x as int];
                let vy = s.regs[y as int];
                &&& s2.regs[15] == (if vx >= vy {
                    1u8
                } else {
                    0u8
                })
                &&& (x != 15 ==> s2.regs[x as int] == (vx - vy) % 256)
            },
            Err(_) => false,
        },
{
    reveal(exec_instr_spec);
}

/// `8xy6`: the flag receives the bit shifted out (the low bit of `Vx`) and
/// the result is the arithmetic halving of `Vx`.
pub proof fn lemma_shr_bit(s: CpuState, x: u8, rand: u8)
    requires
        s.wf(),
        x < 16,
    ensures
        match exec_instr_spec(s, Instr::Shr { x }, rand) {
            Ok(s2) => {
                let vx = s.regs[x as int];
                &&& s2.regs[15] == vx % 2
                &&& (x != 15 ==> s2.regs[x as int] == vx / 2)
            },
            Err(_) => false,
        },
{
    reveal(exec_instr_spec);
    let vx = s.regs[x as int];
    assert(vx & 1 == vx % 2) by (bit_vector);
    assert(vx >> 1 == vx / 2) by (bit_vector);
}

/// `8xyE`: the flag receives the bit shifted out (the high bit of `Vx`) and
/// the result is the doubling of `Vx` truncated to eight bits.
pub proof fn lemma_shl_bit(s: CpuState, x: u8, rand: u8)
    requires
        s.wf(),
        x < 16,
    ensures
        match exec_instr_spec(s, Instr::Shl { x }, rand) {
            Ok(s2) => {
                let vx = s.regs[x as int];
                &&& s2.regs[15] == vx / 128
                &&& (x != 15 ==> s2.regs[x as int] == (2 * vx) % 256)
            },
            Err(_) => false,
        },
{
    reveal(exec_instr_spec);
    let vx = s.regs[x as int];
    assert(vx >> 7 == vx / 128) by (bit_vector);
    assert(vx << 1 == ((2 * (vx as u16)) % 256) as u8) by (bit_vector);
}

/// `Dxyn`: the framebuffer becomes the XOR composite of the sprite, with
/// coordinates wrapped modulo 64 and 32, and the flag register is 1 exactly
/// when some drawn bit turned a set pixel off — and is never anything but
/// 0 or 1.
pub proof fn lemma_draw_collision_flag(s: CpuState, x: u8, y: u8, n: u8, rand: u8)
    requires
        s.wf(),
        x < 16,
        y < 16,
        n < 16,
        n > 0 ==> s.index + n <= 4096,
    ensures
        match exec_instr_spec(s, Instr::Draw { x, y, n }, rand) {
            Ok(s2) => {
                let vx = s.regs[x as int];
                let vy = s.regs[y as int];
                &&& s2.fb == fb_draw_rows(
                    s.fb,
                    s.ram,
                    s.index as int,
                    vx as int,
                    vy as int,
                    n as int,
                )
                &&& (s2.regs[15] == 1 <==> rows_collide(
                    s.fb,
                    s.ram,
                    s.index as int,
                    vx as int,
                    vy as int,
                    n as int,
                ))
                &&& (s2.regs[15] == 0 || s2.regs[15] == 1)
            },
            Err(_) => false,
        },
{
    reveal(exec_instr_spec);
}

/// Two numbers closer together than the modulus have distinct residues.
proof fn lemma_mod_injective(a: int, b: int, m: int)
    requires
        m > 0,
        0 <= a,
        a < b,
        b - a < m,
    ensures
        a % m != b % m,
{
    vstd::arithmetic::div_mod::lemma_fundamental_div_mod(a, m);
    vstd::arithmetic::div_mod::lemma_fundamental_div_mod(b, m);
    if a % m == b % m {
        let k = b / m - a / m;
        assert(b - a == m * k) by (nonlinear_arith)
            requires
                a == m * (a / m) + a % m,
                b == m * (b / m) + b % m,
                a % m == b % m,
                k == b / m - a / m,
        ;
        if k >= 1 {
            assert(m * k >= m) by (nonlinear_arith)
                requires
                    m > 0,
                    k >= 1,
            ;
        } else {
            assert(k <= -1);
            assert(m * k <= -m) by (nonlinear_arith)
                requires
                    m > 0,
                    k <= -1,
            ;
        }
        assert(false);
    }
}

/// A sprite cell decomposes into its wrapped row and column, so bits from
/// different wrapped rows or columns land on different cells.
proof fn lemma_pix_index_parts(x: int, y: int)
    requires
        x >= 0,
        y >= 0,
    ensures
        0 <= pix_index(x, y) < 2048,
        pix_index(x, y) / 64 == y % 32,
        pix_index(x, y) % 64 == x % 64,
{
    vstd::arithmetic::div_mod::lemma_mod_bound(x, 64);
    vstd::arithmetic::div_mod::lemma_mod_bound(y, 32);
    let q = y % 32;
    let rr = x % 64;
    assert((q * 64 + rr) / 64 == q) by (nonlinear_arith)
        requires
            0 <= q,
            0 <= rr < 64,
    ;
    assert((q * 64 + rr) % 64 == rr) by (nonlinear_arith)
        requires
            0 <= q,
            0 <= rr < 64,
    ;
    assert(q * 64 + rr < 2048) by (nonlinear_arith)
        requires
            0 <= q < 32,
            0 <= rr < 64,
    ;
}

/// Drawing one sprite row: each of the first `c` cells it can touch is hit
/// at most once, so afterwards a cell is flipped exactly when a set bit
/// landed on it, and a collision was reported exactly when a set bit landed
/// on a cell that was set when the row began.
proof fn lemma_cols_pointwise(fb: Seq<bool>, b: u8, x0: int, y: int, c: int)
    requires
        fb.len() == 2048,
        0 <= c <= 8,
        x0 >= 0,
        y >= 0,
    ensures
        fb_draw_cols(fb, b, x0, y, c).len() == 2048,
        forall|p: int|
            0 <= p < 2048 ==> fb_draw_cols(fb, b, x0, y, c)[p] == (fb[p] ^ col_covers(
                b,
                x0,
                y,
                c,
                p,
            )),
        cols_collide(fb, b, x0, y, c) <==> exists|cc: int|
            0 <= cc < c && #[trigger] sprite_bit(b, cc) && fb[pix_index(x0 + cc, y)],
    decreases c,
{
    if c > 0 {
        lemma_cols_pointwise(fb, b, x0, y, c - 1);
        let prev = fb_draw_cols(fb, b, x0, y, c - 1);
        let cm = c - 1;
        let pix = pix_index(x0 + cm, y);
        lemma_pix_index_parts(x0 + cm, y);
        assert forall|cc: int|
            0 <= cc < cm && #[trigger] sprite_bit(b, cc) implies pix_index(x0 + cc, y) != pix by {
            lemma_pix_index_parts(x0 + cc, y);
            lemma_mod_injective(x0 + cc, x0 + cm, 64);
        }
        assert(!col_covers(b, x0, y, cm, pix));
        assert(prev[pix] == fb[pix]);
        // how coverage by c columns relates to coverage by the first c - 1
        assert forall|p: int| 0 <= p < 2048 implies #[trigger] col_covers(b, x0, y, c, p) == (
        col_covers(b, x0, y, cm, p) || (sprite_bit(b, cm) && p == pix)) by {
            if col_covers(b, x0, y, c, p) {
                let cc = choose|cc: int|
                    0 <= cc < c && #[trigger] sprite_bit(b, cc) && pix_index(x0 + cc, y) == p;
                if cc < cm {
                    assert(col_covers(b, x0, y, cm, p));
                }
            }
            if col_covers(b, x0, y, cm, p) {
                let cc = choose|cc: int|
                    0 <= cc < cm && #[trigger] sprite_bit(b, cc) && pix_index(x0 + cc, y) == p;
                assert(0 <= cc < c && sprite_bit(b, cc) && pix_index(x0 + cc, y) == p);
                assert(col_covers(b, x0, y, c, p));
            }
            if sprite_bit(b, cm) && p == pix {
                assert(0 <= cm < c && sprite_bit(b, cm) && pix_index(x0 + cm, y) == p);
                assert(col_covers(b, x0, y, c, p));
            }
        }
        // the collision disjunct contributed by the new column
        if cols_collide(fb, b, x0, y, cm) {
            let cc = choose|cc: int|
                0 <= cc < cm && #[trigger] sprite_bit(b, cc) && fb[pix_index(x0 + cc, y)];
            assert(0 <= cc < c && sprite_bit(b, cc) && fb[pix_index(x0 + cc, y)]);
        }
        if sprite_bit(b, cm) && fb[pix] {
            assert(0 <= cm < c && sprite_bit(b, cm) && fb[pix_index(x0 + cm, y)]);
        }
        if exists|cc: int| 0 <= cc < c && #[trigger] sprite_bit(b, cc) && fb[pix_index(x0 + cc, y)] {
            let cc = choose|cc: int|
                0 <= cc < c && #[trigger] sprite_bit(b, cc) && fb[pix_index(x0 + cc, y)];
            if cc < cm {
                assert(exists|cc2: int|
                    0 <= cc2 < cm && #[trigger] sprite_bit(b, cc2) && fb[pix_index(x0 + cc2, y)]);
            }
        }
    }
}

/// Drawing a whole sprite: each cell is hit at most once over all rows and
/// columns, so afterwards a cell is flipped exactly when a set sprite bit
/// landed on it, and a collision is reported exactly when a set bit landed
/// on a cell of the original framebuffer that was already set.
proof fn lemma_rows_pointwise(fb: Seq<bool>, ram: Seq<u8>, i: int, x0: int, y0: int, n: int)
    requires
        fb.len() == 2048,
        ram.len() == 4096,
        0 <= i,
        0 <= n <= 15,
        i + n <= 4096,
        x0 >= 0,
        y0 >= 0,
    ensures
        fb_draw_rows(fb, ram, i, x0, y0, n).len() == 2048,
        forall|p: int|
            0 <= p < 2048 ==> fb_draw_rows(fb, ram, i, x0, y0, n)[p] == (fb[p] ^ sprite_covers(
                ram,
                i,
                x0,
                y0,
                n,
                p,
            )),
        rows_collide(fb, ram, i, x0, y0, n) <==> exists|r: int, c: int|
            0 <= r < n && 0 <= c < 8 && #[trigger] sprite_pixel(ram, i, r, c) && fb[sprite_cell(
                x0,
                y0,
                r,
                c,
            )],
    decreases n,
{
    if n > 0 {
        let nm = n - 1;
        lemma_rows_pointwise(fb, ram, i, x0, y0, nm);
        let prev = fb_draw_rows(fb, ram, i, x0, y0, nm);
        let rowy = y0 + nm;
        let b = ram[i + nm];
        lemma_cols_pointwise(prev, b, x0, rowy, 8);
        // no earlier row lands on a cell of this row
        assert forall|p: int|
            0 <= p < 2048 && #[trigger] col_covers(b, x0, rowy, 8, p) implies !sprite_covers(
            ram,
            i,
            x0,
            y0,
            nm,
            p,
        ) && prev[p] == fb[p] by {
            let cc = choose|cc: int|
                0 <= cc < 8 && #[trigger] sprite_bit(b, cc) && pix_index(x0 + cc, rowy) == p;
            lemma_pix_index_parts(x0 + cc, rowy);
            if sprite_covers(ram, i, x0, y0, nm, p) {
                let (r2, c2) = choose|r2: int, c2: int|
                    0 <= r2 < nm && 0 <= c2 < 8 && #[trigger] sprite_pixel(ram, i, r2, c2)
                        && sprite_cell(x0, y0, r2, c2) == p;
                lemma_pix_index_parts(x0 + c2, y0 + r2);
                lemma_mod_injective(y0 + r2, rowy, 32);
                assert(false);
            }
        }
        // coverage by n rows splits into the first n - 1 rows and the last
        assert forall|p: int| 0 <= p < 2048 implies #[trigger] sprite_covers(ram, i, x0, y0, n, p)
            == (sprite_covers(ram, i, x0, y0, nm, p) || col_covers(b, x0, rowy, 8, p)) by {
            if sprite_covers(ram, i, x0, y0, n, p) {
                let (r2, c2) = choose|r2: int, c2: int|
                    0 <= r2 < n && 0 <= c2 < 8 && #[trigger] sprite_pixel(ram, i, r2, c2)
                        && sprite_cell(x0, y0, r2, c2) == p;
                if r2 < nm {
                    assert(sprite_covers(ram, i, x0, y0, nm, p));
                } else {
                    assert(sprite_bit(b, c2) && pix_index(x0 + c2, rowy) == p);
                    assert(col_covers(b, x0, rowy, 8, p));
                }
            }
            if sprite_covers(ram, i, x0, y0, nm, p) {
                let (r2, c2) = choose|r2: int, c2: int|
                    0 <= r2 < nm && 0 <= c2 < 8 && #[trigger] sprite_pixel(ram, i, r2, c2)
                        && sprite_cell(x0, y0, r2, c2) == p;
                assert(0 <= r2 < n && 0 <= c2 < 8 && sprite_pixel(ram, i, r2, c2) && sprite_cell(
                    x0,
                    y0,
                    r2,
                    c2,
                ) == p);
                assert(sprite_covers(ram, i, x0, y0, n, p));
            }
            if col_covers(b, x0, rowy, 8, p) {
                let cc = choose|cc: int|
                    0 <= cc < 8 && #[trigger] sprite_bit(b, cc) && pix_index(x0 + cc, rowy) == p;
                assert(0 <= nm < n && 0 <= cc < 8 && sprite_pixel(ram, i, nm, cc) && sprite_cell(
                    x0,
                    y0,
                    nm,
                    cc,
                ) == p);
                assert(sprite_covers(ram, i, x0, y0, n, p));
            }
        }
        // the last row's collisions read the original framebuffer
        assert(cols_collide(prev, b, x0, rowy, 8) <==> exists|cc: int|
            0 <= cc < 8 && #[trigger] sprite_bit(b, cc) && fb[pix_index(x0 + cc, rowy)]) by {
            if cols_collide(prev, b, x0, rowy, 8) {
                let cc = choose|cc: int|
                    0 <= cc < 8 && #[trigger] sprite_bit(b, cc) && prev[pix_index(x0 + cc, rowy)];
                lemma_pix_index_parts(x0 + cc, rowy);
                assert(col_covers(b, x0, rowy, 8, pix_index(x0 + cc, rowy)));
                assert(fb[pix_index(x0 + cc, rowy)]);
            }
            if exists|cc: int|
                0 <= cc < 8 && #[trigger] sprite_bit(b, cc) && fb[pix_index(x0 + cc, rowy)] {
                let cc = choose|cc: int|
                    0 <= cc < 8 && #[trigger] sprite_bit(b, cc) && fb[pix_index(x0 + cc, rowy)];
                lemma_pix_index_parts(x0 + cc, rowy);
                assert(col_covers(b, x0, rowy, 8, pix_index(x0 + cc, rowy)));
                assert(prev[pix_index(x0 + cc, rowy)]);
            }
        }
        // merge the two collision sources into one statement over all rows
        if rows_collide(fb, ram, i, x0, y0, nm) {
            let (r2, c2) = choose|r2: int, c2: int|
                0 <= r2 < nm && 0 <= c2 < 8 && #[trigger] sprite_pixel(ram, i, r2, c2)
                    && fb[sprite_cell(x0, y0, r2, c2)];
            assert(0 <= r2 < n && 0 <= c2 < 8 && sprite_pixel(ram, i, r2, c2) && fb[sprite_cell(
                x0,
                y0,
                r2,
                c2,
            )]);
        }
        if exists|cc: int| 0 <= cc < 8 && #[trigger] sprite_bit(b, cc) && fb[pix_index(x0 + cc, rowy)] {
            let cc = choose|cc: int|
                0 <= cc < 8 && #[trigger] sprite_bit(b, cc) && fb[pix_index(x0 + cc, rowy)];
            assert(0 <= nm < n && 0 <= cc < 8 && sprite_pixel(ram, i, nm, cc) && fb[sprite_cell(
                x0,
                y0,
                nm,
                cc,
            )]);
        }
        if exists|r: int, c: int|
            0 <= r < n && 0 <= c < 8 && #[trigger] sprite_pixel(ram, i, r, c) && fb[sprite_cell(
                x0,
                y0,
                r,
                c,
            )] {
            let (r2, c2) = choose|r2: int, c2: int|
                0 <= r2 < n && 0 <= c2 < 8 && #[trigger] sprite_pixel(ram, i, r2, c2)
                    && fb[sprite_cell(x0, y0, r2, c2)];
            if r2 < nm {
                assert(exists|r3: int, c3: int|
                    0 <= r3 < nm && 0 <= c3 < 8 && #[trigger] sprite_pixel(ram, i, r3, c3)
                        && fb[sprite_cell(x0, y0, r3, c3)]);
            } else {
                assert(sprite_bit(b, c2) && fb[pix_index(x0 + c2, rowy)]);
            }
        }
    }
}

/// `Dxyn`, read against the framebuffer as it stood before the draw: a cell
/// ends up flipped exactly when a set sprite bit lands on it, every cell is
/// touched at most once, and the flag is 1 exactly when a set bit landed on
/// a cell that was already set. Coordinates wrap modulo 64 and 32 for all
/// register values, 255 included.
pub proof fn lemma_draw_flips_original_pixels(s: CpuState, x: u8, y: u8, n: u8, rand: u8)
    requires
        s.wf(),
        x < 16,
        y < 16,
        n < 16,
        n > 0 ==> s.index + n <= 4096,
    ensures
        match exec_instr_spec(s, Instr::Draw { x, y, n }, rand) {
            Ok(s2) => {
                let vx = s.regs[x as int] as int;
                let vy = s.regs[y as int] as int;
                &&& s2.fb.len() == 2048
                &&& forall|p: int|
                    0 <= p < 2048 ==> s2.fb[p] == (s.fb[p] ^ sprite_covers(
                        s.ram,
                        s.index as int,
                        vx,
                        vy,
                        n as int,
                        p,
                    ))
                &&& (s2.regs[15] == 1 <==> exists|r: int, c: int|
                    0 <= r < n && 0 <= c < 8 && #[trigger] sprite_pixel(s.ram, s.index as int, r, c)
                        && s.fb[sprite_cell(vx, vy, r, c)])
            },
            Err(_) => false,
        },
{
    reveal(exec_instr_spec);
    let vx = s.regs[x as int] as int;
    let vy = s.regs[y as int] as int;
    lemma_rows_pointwise(s.fb, s.ram, s.index as int, vx, vy, n as int);
}

/// One frame tick moves each timer one closer to zero and no further: a zero
/// timer stays zero, and neither timer ever wraps or grows.
pub proof fn lemma_timers_clamp(s: CpuState)
    ensures
        tick_spec(s).delay == (if s.delay > 0 {
            (s.delay - 1) as u8
        } else {
            0u8
        }),
        tick_spec(s).sound == (if s.sound > 0 {
            (s.sound - 1) as u8
        } else {
            0u8
        }),
        tick_spec(s).delay <= s.delay,
        tick_spec(s).sound <= s.sound,
        s.delay == 0 ==> tick_spec(s).delay == 0,
        s.sound == 0 ==> tick_spec(s).sound == 0,
{
}

/// `2nnn` below stack capacity always succeeds: it pushes the address of the
/// instruction after the call and jumps to `nnn`.
pub proof fn lemma_call_pushes_return(s: CpuState, nnn: u16, rand: u8)
    requires
        s.wf(),
        s.pc <= 4094,
        s.stack.len() < 16,
    ensures
        match exec_instr_spec(advance_pc(s), Instr::Call { nnn }, rand) {
            Ok(s2) => {
                &&& s2.pc == nnn
                &&& s2.stack == s.stack.push((s.pc + 2) as u16)
                &&& s2.stack.len() == s.stack.len() + 1
            },
            Err(_) => false,
        },
{
    reveal(exec_instr_spec);
}

/// `00EE` with a nonempty stack always succeeds: it pops the top frame into
/// the program counter.
pub proof fn lemma_ret_restores(t: CpuState, rand: u8)
    requires
        t.wf(),
        t.pc <= 4094,
        t.stack.len() > 0,
    ensures
        match exec_instr_spec(advance_pc(t), Instr::Ret, rand) {
            Ok(t2) => {
                &&& t2.pc == t.stack.last()
                &&& t2.stack == t.stack.drop_last()
            },
            Err(_) => false,
        },
{
    reveal(exec_instr_spec);
}

/// A call followed — after any amount of execution that leaves the pushed
/// frame on top — by a return lands on the instruction after the call, with
/// the stack as it was before the call. This holds at every nesting depth
/// below capacity.
pub proof fn lemma_call_then_ret(s: CpuState, nnn: u16, t: CpuState, rand1: u8, rand2: u8)
    requires
        s.wf(),
        s.pc <= 4094,
        s.stack.len() < 16,
        t.wf(),
        t.pc <= 4094,
        t.stack == s.stack.push((s.pc + 2) as u16),
    ensures
        exec_instr_spec(advance_pc(s), Instr::Call { nnn }, rand1) is Ok,
        match exec_instr_spec(advance_pc(t), Instr::Ret, rand2) {
            Ok(t2) => {
                &&& t2.pc == s.pc + 2
                &&& t2.stack == s.stack
            },
            Err(_) => false,
        },
{
    lemma_call_pushes_return(s, nnn, rand1);
    lemma_ret_restores(t, rand2);
    assert(t.stack.last() == (s.pc + 2) as u16);
    assert(t.stack.drop_last() =~= s.stack);
}

/// A call at full stack capacity is refused as a stack overflow, and a
/// return on an empty stack as a stack underflow.
pub proof fn lemma_stack_limits(s: CpuState, nnn: u16, rand: u8)
    ensures
        s.stack.len() >= 16 ==> exec_instr_spec(advance_pc(s), Instr::Call { nnn }, rand) == Err::<
            CpuState,
            ExecError,
        >(ExecError::StackOverflow),
        s.stack.len() == 0 ==> exec_instr_spec(advance_pc(s), Instr::Ret, rand) == Err::<
            CpuState,
            ExecError,
        >(ExecError::StackUnderflow),
{
    reveal(exec_instr_spec);
}

} // verus!
