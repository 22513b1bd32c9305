//! Mathematical model of the interpreter: the machine state, and the meaning
//! of one fetch-decode-execute cycle as a function on that state.

use vstd::prelude::*;

use crate::display::{fb_toggle, pix_index, blank_fb};
use crate::instr::{Instr, spec_decode};
use crate::keyboard::blank_keys;

verus! {

/// Whether the executor is dispatching instructions or parked on `Fx0A`,
/// waiting for a key press destined for register `reg`.
#[derive(Clone, Copy, Debug, PartialEq, Eq, Structural)]
pub enum Mode {
    Running,
    WaitingForKey { reg: u8 },
}

/// What one cycle did, when it did not fail.
#[derive(Clone, Copy, Debug, PartialEq, Eq, Structural)]
pub enum StepOutcome {
    /// An instruction was decoded and executed.
    Executed,
    /// The fetched word decodes to nothing; it was reported and skipped.
    InvalidOpcode(u16),
    /// The executor is waiting for a key and none has been pressed yet.
    Waiting,
}

/// The fatal per-cycle errors: the machine state can no longer be trusted,
/// so the cycle leaves the state untouched and execution must halt.
#[derive(Clone, Copy, Debug, PartialEq, Eq, Structural)]
pub enum ExecError {
    /// `00EE` with an empty call stack.
    StackUnderflow,
    /// `2nnn` with the call stack already at its 16-frame capacity.
    StackOverflow,
    /// A fetch, read or write would touch an address beyond `0xFFF`.
    OutOfBounds,
}

/// Why a program could not be loaded.
#[derive(Clone, Copy, Debug, PartialEq, Eq, Structural)]
pub enum LoadError {
    /// The program would extend past the top of memory.
    TooLarge,
}

/// Ghost model of the whole machine: memory, registers, call stack, timers,
/// framebuffer, keypad and the key-wait mode.
#[verifier::ext_equal]
pub struct CpuState {
    pub ram: Seq<u8>,
    pub regs: Seq<u8>,
    pub stack: Seq<u16>,
    pub index: u16,
    pub pc: u16,
    pub delay: u8,
    pub sound: u8,
    pub fb: Seq<bool>,
    pub keys: Seq<bool>,
    pub last_key: Option<u8>,
    pub mode: Mode,
}

impl CpuState {
    pub open spec fn wf(self) -> bool {
        &&& self.ram.len() == 4096
        &&& self.regs.len() == 16
        &&& self.stack.len() <= 16
        &&& self.fb.len() == 2048
        &&& self.keys.len() == 16
        &&& self.index <= 0xFFF
        &&& match self.mode {
            Mode::WaitingForKey { reg } => reg < 16,
            Mode::Running => true,
        }
        &&& match self.last_key {
            Some(k) => k < 16,
            None => true,
        }
    }
}

/// The interpreter font: sixteen glyphs of five bytes each.
pub open spec fn font_data() -> Seq<u8> {
    seq![
        0xF0u8, 0x90, 0x90, 0x90, 0xF0, // 0
        0x20, 0x60, 0x20, 0x20, 0x70, // 1
        0xF0, 0x10, 0xF0, 0x80, 0xF0, // 2
        0xF0, 0x10, 0xF0, 0x10, 0xF0, // 3
        0x90, 0x90, 0xF0, 0x10, 0x10, // 4
        0xF0, 0x80, 0xF0, 0x10, 0xF0, // 5
        0xF0, 0x80, 0xF0, 0x90, 0xF0, // 6
        0xF0, 0x10, 0x20, 0x40, 0x40, // 7
        0xF0, 0x90, 0xF0, 0x90, 0xF0, // 8
        0xF0, 0x90, 0xF0, 0x10, 0xF0, // 9
        0xF0, 0x90, 0xF0, 0x90, 0x90, // A
        0xE0, 0x90, 0xE0, 0x90, 0xE0, // B
        0xF0, 0x80, 0x80, 0x80, 0xF0, // C
        0xE0, 0x90, 0x90, 0x90, 0xE0, // D
        0xF0, 0x80, 0xF0, 0x80, 0xF0, // E
        0xF0, 0x80, 0xF0, 0x80, 0x80, // F
    ]
}

/// Memory at power-on: the font in the first 80 bytes, zeroes elsewhere.
pub open spec fn initial_ram() -> Seq<u8> {
    Seq::new(4096, |j: int| if j < 80 { font_data()[j] } else { 0u8 })
}

/// The machine as `Cpu::new` builds it.
pub open spec fn initial_state() -> CpuState {
    CpuState {
        ram: initial_ram(),
        regs: Seq::new(16, |j: int| 0u8),
        stack: Seq::empty(),
        index: 0,
        pc: 0x200,
        delay: 0,
        sound: 0,
        fb: blank_fb(),
        keys: blank_keys(),
        last_key: None,
        mode: Mode::Running,
    }
}

/// Memory after a program of `rom` bytes is copied in at `0x200`.
pub open spec fn load_ram(ram: Seq<u8>, rom: Seq<u8>) -> Seq<u8> {
    Seq::new(ram.len(), |j: int| if 0x200 <= j < 0x200 + rom.len() {
        rom[j - 0x200]
    } else {
        ram[j]
    })
}

/// The program counter moved past the instruction word just fetched.
pub open spec fn advance_pc(s: CpuState) -> CpuState {
    CpuState { pc: (s.pc + 2) as u16, ..s }
}

/// The big-endian instruction word at the program counter.
pub open spec fn fetched_opcode(s: CpuState) -> u16 {
    (s.ram[s.pc as int] * 256 + s.ram[s.pc as int + 1]) as u16
}

/// Whether column `c` (0 is leftmost) of a sprite row byte is set.
pub open spec fn sprite_bit(b: u8, c: int) -> bool {
    (b >> ((7 - c) as u8)) & 1 == 1
}

/// The framebuffer after drawing the leftmost `c` columns of the sprite row
/// byte `b` whose left edge is at `(x0, y)`.
pub open spec fn fb_draw_cols(fb: Seq<bool>, b: u8, x0: int, y: int, c: int) -> Seq<bool>
    decreases c,
{
    if c <= 0 {
        fb
    } else {
        let prev = fb_draw_cols(fb, b, x0, y, c - 1);
        if sprite_bit(b, c - 1) {
            fb_toggle(prev, x0 + (c - 1), y)
        } else {
            prev
        }
    }
}

/// Whether drawing the leftmost `c` columns of row byte `b` turned some
/// already-set pixel off.
pub open spec fn cols_collide(fb: Seq<bool>, b: u8, x0: int, y: int, c: int) -> bool
    decreases c,
{
    if c <= 0 {
        false
    } else {
        cols_collide(fb, b, x0, y, c - 1) || (sprite_bit(b, c - 1) && fb_draw_cols(
            fb,
            b,
            x0,
            y,
            c - 1,
        )[pix_index(x0 + (c - 1), y)])
    }
}

/// The framebuffer after drawing the first `r` rows of the `n`-row sprite
/// stored at memory address `i`, with its top-left corner at `(x0, y0)`.
pub open spec fn fb_draw_rows(fb: Seq<bool>, ram: Seq<u8>, i: int, x0: int, y0: int, r: int) -> Seq<
    bool,
>
    decreases r,
{
    if r <= 0 {
        fb
    } else {
        fb_draw_cols(fb_draw_rows(fb, ram, i, x0, y0, r - 1), ram[i + (r - 1)], x0, y0 + (r - 1), 8)
    }
}

/// Whether drawing the first `r` rows turned some already-set pixel off.
pub open spec fn rows_collide(fb: Seq<bool>, ram: Seq<u8>, i: int, x0: int, y0: int, r: int) -> bool
    decreases r,
{
    if r <= 0 {
        false
    } else {
        rows_collide(fb, ram, i, x0, y0, r - 1) || cols_collide(
            fb_draw_rows(fb, ram, i, x0, y0, r - 1),
            ram[i + (r - 1)],
            x0,
            y0 + (r - 1),
            8,
        )
    }
}

/// The framebuffer cell that row `r`, column `c` of a sprite drawn at
/// `(x0, y0)` lands on, after wrapping.
pub open spec fn sprite_cell(x0: int, y0: int, r: int, c: int) -> int {
    pix_index(x0 + c, y0 + r)
}

/// Whether row `r`, column `c` of the sprite stored at address `i` is set.
pub open spec fn sprite_pixel(ram: Seq<u8>, i: int, r: int, c: int) -> bool {
    sprite_bit(ram[i + r], c)
}

/// Whether some set bit among the first `c` columns of row byte `b`, drawn
/// with its left edge at `(x0, y)`, lands on framebuffer cell `p`.
pub open spec fn col_covers(b: u8, x0: int, y: int, c: int, p: int) -> bool {
    exists|cc: int| 0 <= cc < c && #[trigger] sprite_bit(b, cc) && pix_index(x0 + cc, y) == p
}

/// Whether some set bit of the `n`-row sprite at `i`, drawn at `(x0, y0)`,
/// lands on framebuffer cell `p`.
pub open spec fn sprite_covers(ram: Seq<u8>, i: int, x0: int, y0: int, n: int, p: int) -> bool {
    exists|r: int, c: int|
        0 <= r < n && 0 <= c < 8 && #[trigger] sprite_pixel(ram, i, r, c) && sprite_cell(
            x0,
            y0,
            r,
            c,
        ) == p
}

/// Memory after `V0..=Vx` are stored at addresses `i..=i+x`.
pub open spec fn store_regs_ram(ram: Seq<u8>, regs: Seq<u8>, i: int, x: int) -> Seq<u8> {
    Seq::new(ram.len(), |j: int| if i <= j <= i + x {
        regs[j - i]
    } else {
        ram[j]
    })
}

/// Registers after `V0..=Vx` are loaded from addresses `i..=i+x`.
pub open spec fn load_regs_file(regs: Seq<u8>, ram: Seq<u8>, i: int, x: int) -> Seq<u8> {
    Seq::new(regs.len(), |j: int| if j <= x {
        ram[i + j]
    } else {
        regs[j]
    })
}

/// The meaning of one decoded instruction, applied to a state whose program
/// counter has already moved past the instruction word. An error leaves the
/// state untouched.
#[verifier::opaque]
pub open spec fn exec_instr_spec(s: CpuState, i: Instr, rand: u8) -> Result<CpuState, ExecError> {
    match i {
        Instr::Cls => Ok(CpuState { fb: blank_fb(), ..s }),
        Instr::Ret => if s.stack.len() == 0 {
            Err(ExecError::StackUnderflow)
        } else {
            Ok(CpuState { pc: s.stack.last(), stack: s.stack.drop_last(), ..s })
        },
        Instr::Jump { nnn } => Ok(CpuState { pc: nnn, ..s }),
        Instr::Call { nnn } => if s.stack.len() >= 16 {
            Err(ExecError::StackOverflow)
        } else {
            Ok(CpuState { pc: nnn, stack: s.stack.push(s.pc), ..s })
        },
        Instr::SkipEqImm { x, kk } => Ok(
            if s.regs[x as int] == kk {
                CpuState { pc: (s.pc + 2) as u16, ..s }
            } else {
                s
            },
        ),
        Instr::SkipNeImm { x, kk } => Ok(
            if s.regs[x as int] != kk {
                CpuState { pc: (s.pc + 2) as u16, ..s }
            } else {
                s
            },
        ),
        Instr::SkipEqReg { x, y } => Ok(
            if s.regs[x as int] == s.regs[y as int] {
                CpuState { pc: (s.pc + 2) as u16, ..s }
            } else {
                s
            },
        ),
        Instr::LoadImm { x, kk } => Ok(CpuState { regs: s.regs.update(x as int, kk), ..s }),
        Instr::AddImm { x, kk } => Ok(
            CpuState {
                regs: s.regs.update(x as int, ((s.regs[x as int] + kk) % 256) as u8),
                ..s
            },
        ),
        Instr::Move { x, y } => Ok(CpuState { regs: s.regs.update(x as int, s.regs[y as int]), ..s }),
        Instr::Or { x, y } => Ok(
            CpuState { regs: s.regs.update(x as int, s.regs[x as int] | s.regs[y as int]), ..s },
        ),
        Instr::And { x, y } => Ok(
            CpuState { regs: s.regs.update(x as int, s.regs[x as int] & s.regs[y as int]), ..s },
        ),
        Instr::Xor { x, y } => Ok(
            CpuState { regs: s.regs.update(x as int, s.regs[x as int] ^ s.regs[y as int]), ..s },
        ),
        Instr::Add { x, y } => {
            let sum = s.regs[x as int] + s.regs[y as int];
            Ok(
                CpuState {
                    regs: s.regs.update(x as int, (sum % 256) as u8).update(
                        15,
                        if sum > 255 {
                            1u8
                        } else {
                            0u8
                        },
                    ),
                    ..s
                },
            )
        },
        Instr::Sub { x, y } => {
            let vx = s.regs[x as int];
            let vy = s.regs[y as int];
            Ok(
                CpuState {
                    regs: s.regs.update(x as int, ((vx - vy) % 256) as u8).update(
                        15,
                        if vx >= vy {
                            1u8
                        } else {
                            0u8
                        },
                    ),
                    ..s
                },
            )
        },
        Instr::Shr { x } => {
            let vx = s.regs[x as int];
            Ok(CpuState { regs: s.regs.update(x as int, vx >> 1).update(15, vx & 1), ..s })
        },
        Instr::SubN { x, y } => {
            let vx = s.regs[x as int];
            let vy = s.regs[y as int];
            Ok(
                CpuState {
                    regs: s.regs.update(x as int, ((vy - vx) % 256) as u8).update(
                        15,
                        if vy >= vx {
                            1u8
                        } else {
                            0u8
                        },
                    ),
                    ..s
                },
            )
        },
        Instr::Shl { x } => {
            let vx = s.regs[x as int];
            Ok(CpuState { regs: s.regs.update(x as int, vx << 1).update(15, vx >> 7), ..s })
        },
        Instr::SkipNeReg { x, y } => Ok(
            if s.regs[x as int] != s.regs[y as int] {
                CpuState { pc: (s.pc + 2) as u16, ..s }
            } else {
                s
            },
        ),
        Instr::LoadIndex { nnn } => Ok(CpuState { index: nnn, ..s }),
        Instr::JumpV0 { nnn } => Ok(CpuState { pc: (s.regs[0] + nnn) as u16, ..s }),
        Instr::Random { x, kk } => Ok(CpuState { regs: s.regs.update(x as int, kk & rand), ..s }),
        Instr::Draw { x, y, n } => if n > 0 && s.index + n > 4096 {
            Err(ExecError::OutOfBounds)
        } else {
            let vx = s.regs[x as int];
            let vy = s.regs[y as int];
            let collided = rows_collide(s.fb, s.ram, s.index as int, vx as int, vy as int, n as int);
            Ok(
                CpuState {
                    fb: fb_draw_rows(s.fb, s.ram, s.index as int, vx as int, vy as int, n as int),
                    regs: s.regs.update(
                        15,
                        if collided {
                            1u8
                        } else {
                            0u8
                        },
                    ),
                    ..s
                },
            )
        },
        Instr::SkipKey { x } => {
            let vx = s.regs[x as int];
            Ok(
                if vx < 16 && s.keys[vx as int] {
                    CpuState { pc: (s.pc + 2) as u16, ..s }
                } else {
                    s
                },
            )
        },
        Instr::SkipNoKey { x } => {
            let vx = s.regs[x as int];
            Ok(
                if !(vx < 16 && s.keys[vx as int]) {
                    CpuState { pc: (s.pc + 2) as u16, ..s }
                } else {
                    s
                },
            )
        },
        Instr::ReadDelay { x } => Ok(CpuState { regs: s.regs.update(x as int, s.delay), ..s }),
        Instr::WaitKey { x } => Ok(
            CpuState { mode: Mode::WaitingForKey { reg: x }, last_key: None, ..s },
        ),
        Instr::SetDelay { x } => Ok(CpuState { delay: s.regs[x as int], ..s }),
        Instr::SetSound { x } => Ok(CpuState { sound: s.regs[x as int], ..s }),
        Instr::AddIndex { x } => {
            let ni = s.index + s.regs[x as int];
            if ni > 0xFFF {
                Err(ExecError::OutOfBounds)
            } else {
                Ok(CpuState { index: ni as u16, ..s })
            }
        },
        Instr::FontIndex { x } => Ok(CpuState { index: (s.regs[x as int] * 5) as u16, ..s }),
        Instr::Bcd { x } => if s.index + 2 > 4095 {
            Err(ExecError::OutOfBounds)
        } else {
            let vx = s.regs[x as int];
            Ok(
                CpuState {
                    ram: s.ram.update(s.index as int, (vx / 100) as u8).update(
                        s.index as int + 1,
                        ((vx / 10) % 10) as u8,
                    ).update(s.index as int + 2, (vx % 10) as u8),
                    ..s
                },
            )
        },
        Instr::StoreRegs { x } => if s.index + x > 4095 {
            Err(ExecError::OutOfBounds)
        } else {
            Ok(CpuState { ram: store_regs_ram(s.ram, s.regs, s.index as int, x as int), ..s })
        },
        Instr::LoadRegs { x } => if s.index + x > 4095 {
            Err(ExecError::OutOfBounds)
        } else {
            Ok(CpuState { regs: load_regs_file(s.regs, s.ram, s.index as int, x as int), ..s })
        },
    }
}

/// One dispatch of an already-fetched opcode word: the program counter moves
/// past it, then the word either executes or is reported as undefined and
/// skipped.
pub open spec fn op_spec(s: CpuState, op: u16, rand: u8) -> Result<
    (CpuState, StepOutcome),
    ExecError,
> {
    match spec_decode(op) {
        None => Ok((advance_pc(s), StepOutcome::InvalidOpcode(op))),
        Some(i) => match exec_instr_spec(advance_pc(s), i, rand) {
            Ok(s2) => Ok((s2, StepOutcome::Executed)),
            Err(e) => Err(e),
        },
    }
}

/// One cycle of the machine. Waiting for a key suspends dispatch entirely;
/// otherwise a word is fetched at the program counter and dispatched.
pub open spec fn step_spec(s: CpuState, rand: u8) -> Result<(CpuState, StepOutcome), ExecError> {
    match s.mode {
        Mode::WaitingForKey { reg } => match s.last_key {
            Some(k) => Ok(
                (
                    CpuState { regs: s.regs.update(reg as int, k), mode: Mode::Running, ..s },
                    StepOutcome::Executed,
                ),
            ),
            None => Ok((s, StepOutcome::Waiting)),
        },
        Mode::Running => if s.pc >= 4095 {
            Err(ExecError::OutOfBounds)
        } else {
            op_spec(s, fetched_opcode(s), rand)
        },
    }
}

/// A run of consecutive cycles, one per random byte; a failing cycle freezes
/// the state and reports its error.
pub open spec fn run_spec(s: CpuState, rands: Seq<u8>) -> (CpuState, Option<ExecError>)
    decreases rands.len(),
{
    if rands.len() == 0 {
        (s, None)
    } else {
        match step_spec(s, rands[0]) {
            Ok((s2, _)) => run_spec(s2, rands.subrange(1, rands.len() as int)),
            Err(e) => (s, Some(e)),
        }
    }
}

/// Extending an error-free run by one cycle appends that cycle's effect.
#[verifier::rlimit(50)]
pub proof fn lemma_run_snoc(s: CpuState, rs: Seq<u8>, b: u8)
    requires
        run_spec(s, rs).1 is None,
    ensures
        run_spec(s, rs.push(b)) == match step_spec(run_spec(s, rs).0, b) {
            Ok((t2, oc)) => (t2, None::<ExecError>),
            Err(e) => (run_spec(s, rs).0, Some(e)),
        },
    decreases rs.len(),
{
    if rs.len() == 0 {
        assert(rs.push(b)[0] == b);
        assert(rs.push(b).subrange(1, 1) =~= Seq::<u8>::empty());
        match step_spec(s, b) {
            Ok((s2, _)) => {
                assert(run_spec(s2, rs.push(b).subrange(1, 1)) == (s2, None::<ExecError>));
            },
            Err(_) => {},
        }
    } else {
        let rs2 = rs.subrange(1, rs.len() as int);
        assert(rs.push(b)[0] == rs[0]);
        assert(rs.push(b).subrange(1, rs.push(b).len() as int) =~= rs2.push(b));
        match step_spec(s, rs[0]) {
            Ok((s2, _)) => {
                lemma_run_snoc(s2, rs2, b);
            },
            Err(_) => {
                assert(false);
            },
        }
    }
}

/// Once a run has failed, further cycles change nothing.
pub proof fn lemma_run_pad(s: CpuState, rs: Seq<u8>, pad: Seq<u8>)
    requires
        run_spec(s, rs).1 is Some,
    ensures
        run_spec(s, rs + pad) == run_spec(s, rs),
    decreases rs.len(),
{
    if rs.len() == 0 {
        assert(false);
    } else {
        let rs2 = rs.subrange(1, rs.len() as int);
        assert((rs + pad)[0] == rs[0]);
        assert((rs + pad).subrange(1, (rs + pad).len() as int) =~= rs2 + pad);
        match step_spec(s, rs[0]) {
            Ok((s2, _)) => {
                lemma_run_pad(s2, rs2, pad);
            },
            Err(_) => {},
        }
    }
}

/// One frame tick of the two timers: each decrements if nonzero and is
/// clamped at zero.
pub open spec fn tick_spec(s: CpuState) -> CpuState {
    CpuState {
        delay: if s.delay > 0 {
            (s.delay - 1) as u8
        } else {
            0
        },
        sound: if s.sound > 0 {
            (s.sound - 1) as u8
        } else {
            0
        },
        ..s
    }
}

} // verus!
