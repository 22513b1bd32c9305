//! The interpreter core: the machine state and its verified execution.

use vstd::prelude::*;

use crate::display::Display;
use crate::display::blank_fb;
use crate::instr::{Instr, decode, instr_wf};
use crate::keyboard::KeyBoard;
use crate::semantics::{
    CpuState, ExecError, LoadError, Mode, StepOutcome, advance_pc, cols_collide, exec_instr_spec,
    fb_draw_cols, fb_draw_rows, fetched_opcode, font_data, initial_state, lemma_run_pad,
    lemma_run_snoc, load_ram, load_regs_file, op_spec, rows_collide, run_spec, sprite_bit,
    step_spec, store_regs_ram, tick_spec,
};

verus! {

/// Size of the flat memory, addresses `0x000` through `0xFFF`.
pub const MEM_SIZE: usize = 4096;

/// The address programs are loaded at and execution starts from.
pub const PROG_START: usize = 0x200;

/// Capacity of the call stack.
pub const STACK_CAP: usize = 16;

/// Copy the interpreter font into the first 80 bytes of `memory`.
pub fn load_sprites(memory: &mut Vec<u8>)
    requires
        old(memory)@.len() >= 80,
    ensures
        final(memory)@.len() == old(memory)@.len(),
        forall|j: int| 0 <= j < 80 ==> final(memory)@[j] == font_data()[j],
        forall|j: int| 80 <= j < old(memory)@.len() ==> final(memory)@[j] == old(memory)@[j],
{
    let sprites: [u8; 80] = [
        0xF0, 0x90, 0x90, 0x90, 0xF0, // 0
        0x20, 0x60, 0x20, 0x20, 0x70, // 1
        0xF0, 0x10, 0xF0, 0x80, 0xF0, // 2
        0xF0, 0x10, 0xF0, 0x10, 0xF0, // 3
        0x90, 0x90, 0xF0, 0x10, 0x10, // 4
        0xF0, 0x80, 0xF0, 0x10, 0xF0, // 5
        0xF0, 0x80, 0xF0, 0x90, 0xF0, // 6
        0xF0, 0x10, 0x20, 0x40, 0x40, // 7
        0xF0, 0x90, 0xF0, 0x90, 0xF0, // 8
        0xF0, 0x90, 0xF0, 0x10, 0xF0, // 9
        0xF0, 0x90, 0xF0, 0x90, 0x90, // A
        0xE0, 0x90, 0xE0, 0x90, 0xE0, // B
        0xF0, 0x80, 0x80, 0x80, 0xF0, // C
        0xE0, 0x90, 0x90, 0x90, 0xE0, // D
        0xF0, 0x80, 0xF0, 0x80, 0xF0, // E
        0xF0, 0x80, 0xF0, 0x80, 0x80, // F
    ];
    proof {
        assert(sprites@ =~= font_data());
    }
    let mut i: usize = 0;
    while i < 80
        invariant
            i <= 80,
            memory@.len() == old(memory)@.len(),
            old(memory)@.len() >= 80,
            forall|j: int| 0 <= j < i ==> memory@[j] == font_data()[j],
            forall|j: int| i <= j < old(memory)@.len() ==> memory@[j] == old(memory)@[j],
            sprites@ == font_data(),
        decreases 80 - i,
    {
        memory.set(i, sprites[i]);
        i = i + 1;
    }
}

/// The machine: memory, registers, call stack, timers, framebuffer, keypad
/// and the key-wait mode, all owned here and mutated only by dispatch.
pub struct Cpu {
    display: Display,
    keyboard: KeyBoard,
    stack: Vec<u16>,
    ram: Vec<u8>,
    registers: Vec<u8>,
    index: u16,
    delay_timer: u8,
    sound_timer: u8,
    pc: u16,
    mode: Mode,
}

impl View for Cpu {
    type V = CpuState;

    closed spec fn view(&self) -> CpuState {
        CpuState {
            ram: self.ram@,
            regs: self.registers@,
            stack: self.stack@,
            index: self.index,
            pc: self.pc,
            delay: self.delay_timer,
            sound: self.sound_timer,
            fb: self.display@,
            keys: self.keyboard@.keys,
            last_key: self.keyboard@.last,
            mode: self.mode,
        }
    }
}

impl Cpu {
    /// A machine at power-on: font in memory, everything else cleared, the
    /// program counter at `0x200`.
    pub fn new() -> (cpu: Cpu)
        ensures
            cpu@ == initial_state(),
            cpu@.wf(),
    {
        let mut ram: Vec<u8> = Vec::new();
        let mut i: usize = 0;
        while i < 4096
            invariant
                i <= 4096,
                ram@.len() == i,
                forall|j: int| 0 <= j < i ==> ram@[j] == 0u8,
            decreases 4096 - i,
        {
            ram.push(0);
            i = i + 1;
        }
        load_sprites(&mut ram);
        let mut registers: Vec<u8> = Vec::new();
        let mut r: usize = 0;
        while r < 16
            invariant
                r <= 16,
                registers@.len() == r,
                forall|j: int| 0 <= j < r ==> registers@[j] == 0u8,
            decreases 16 - r,
        {
            registers.push(0);
            r = r + 1;
        }
        let cpu = Cpu {
            display: Display::new(),
            keyboard: KeyBoard::new(),
            stack: Vec::new(),
            ram,
            registers,
            index: 0,
            delay_timer: 0,
            sound_timer: 0,
            pc: 0x200,
            mode: Mode::Running,
        };
        proof {
            assert(cpu@.ram =~= initial_state().ram);
            assert(cpu@.regs =~= initial_state().regs);
            assert(cpu@.stack =~= initial_state().stack);
            assert(cpu@ =~= initial_state());
        }
        cpu
    }

    /// Copy a program into memory starting at `0x200`. A program that would
    /// extend past the top of memory is rejected and nothing is copied.
    pub fn load(&mut self, rom: &Vec<u8>) -> (r: Result<(), LoadError>)
        requires
            old(self)@.wf(),
        ensures
            final(self)@.wf(),
            r is Ok <==> rom@.len() <= 3584,
            r is Ok ==> final(self)@ == (CpuState {
                ram: load_ram(old(self)@.ram, rom@),
                ..old(self)@
            }),
            r is Err ==> final(self)@ == old(self)@ && r == Err::<(), LoadError>(
                LoadError::TooLarge,
            ),
    {
        if rom.len() > 3584 {
            return Err(LoadError::TooLarge);
        }
        let count = rom.len();
        let mut i: usize = 0;
        while i < count
            invariant
                i <= count,
                count == rom@.len(),
                count <= 3584,
                self.ram@.len() == 4096,
                forall|j: int| 0x200 <= j < 0x200 + i ==> self.ram@[j] == rom@[j - 0x200],
                forall|j: int|
                    0 <= j < 4096 && !(0x200 <= j < 0x200 + i) ==> self.ram@[j] == old(
                        self,
                    )@.ram[j],
                self.registers@ == old(self)@.regs,
                self.stack@ == old(self)@.stack,
                self.index == old(self)@.index,
                self.pc == old(self)@.pc,
                self.delay_timer == old(self)@.delay,
                self.sound_timer == old(self)@.sound,
                self.display@ == old(self)@.fb,
                self.keyboard@.keys == old(self)@.keys,
                self.keyboard@.last == old(self)@.last_key,
                self.mode == old(self)@.mode,
            decreases count - i,
        {
            self.ram.set(0x200 + i, rom[i]);
            i = i + 1;
        }
        proof {
            assert(self@.ram =~= load_ram(old(self)@.ram, rom@));
            assert(self@ =~= (CpuState { ram: load_ram(old(self)@.ram, rom@), ..old(self)@ }));
        }
        Ok(())
    }

    /// Record a key press, also satisfying a pending key wait.
    pub fn key_down(&mut self, key: u8)
        requires
            old(self)@.wf(),
            key < 16,
        ensures
            final(self)@.wf(),
            final(self)@ == (CpuState {
                keys: old(self)@.keys.update(key as int, true),
                last_key: Some(key),
                ..old(self)@
            }),
    {
        self.keyboard.on_key_down(key);
        proof {
            assert(self@ =~= (CpuState {
                keys: old(self)@.keys.update(key as int, true),
                last_key: Some(key),
                ..old(self)@
            }));
        }
    }

    /// Record a key release.
    pub fn key_up(&mut self, key: u8)
        requires
            old(self)@.wf(),
            key < 16,
        ensures
            final(self)@.wf(),
            final(self)@ == (CpuState {
                keys: old(self)@.keys.update(key as int, false),
                ..old(self)@
            }),
    {
        self.keyboard.on_key_up(key);
        proof {
            assert(self@ =~= (CpuState {
                keys: old(self)@.keys.update(key as int, false),
                ..old(self)@
            }));
        }
    }

    /// One frame tick of the two timers.
    pub fn tick_timers(&mut self)
        requires
            old(self)@.wf(),
        ensures
            final(self)@.wf(),
            final(self)@ == tick_spec(old(self)@),
    {
        if self.delay_timer > 0 {
            self.delay_timer = self.delay_timer - 1;
        }
        if self.sound_timer > 0 {
            self.sound_timer = self.sound_timer - 1;
        }
        proof {
            assert(self@ =~= tick_spec(old(self)@));
        }
    }

    /// Whether tone generation should be on this frame.
    pub fn sound_active(&self) -> (r: bool)
        ensures
            r == (self@.sound > 0),
    {
        self.sound_timer > 0
    }

    pub fn register(&self, i: u8) -> (r: u8)
        requires
            self@.wf(),
            i < 16,
        ensures
            r == self@.regs[i as int],
    {
        self.registers[i as usize]
    }

    pub fn pc(&self) -> (r: u16)
        ensures
            r == self@.pc,
    {
        self.pc
    }

    pub fn index(&self) -> (r: u16)
        ensures
            r == self@.index,
    {
        self.index
    }

    pub fn delay_timer(&self) -> (r: u8)
        ensures
            r == self@.delay,
    {
        self.delay_timer
    }

    pub fn sound_timer(&self) -> (r: u8)
        ensures
            r == self@.sound,
    {
        self.sound_timer
    }

    pub fn stack_depth(&self) -> (r: usize)
        ensures
            r == self@.stack.len(),
    {
        self.stack.len()
    }

    /// Whether the executor is parked on a key wait.
    pub fn is_waiting(&self) -> (r: bool)
        ensures
            r == (self@.mode matches Mode::WaitingForKey { .. }),
    {
        match self.mode {
            Mode::WaitingForKey { .. } => true,
            Mode::Running => false,
        }
    }

    /// The byte in memory at `addr`.
    pub fn ram_byte(&self, addr: usize) -> (b: u8)
        requires
            self@.wf(),
            addr < 4096,
        ensures
            b == self@.ram[addr as int],
    {
        self.ram[addr]
    }

    /// The pixel at `(x, y)` of the 64x32 framebuffer.
    pub fn pixel(&self, x: usize, y: usize) -> (on: bool)
        requires
            self@.wf(),
            x < 64,
            y < 32,
        ensures
            on == self@.fb[y as int * 64 + x as int],
    {
        self.display.pixel(x, y)
    }

    /// XOR-composite the `n`-row sprite at `I` onto the framebuffer with its
    /// top-left corner at `(vx, vy)`, reporting whether any drawn bit turned
    /// an already-set pixel off.
    fn draw_sprite(&mut self, vx: u8, vy: u8, n: u8) -> (collided: bool)
        requires
            old(self)@.wf(),
            n < 16,
            n > 0 ==> old(self)@.index + n <= 4096,
        ensures
            final(self)@ == (CpuState {
                fb: fb_draw_rows(
                    old(self)@.fb,
                    old(self)@.ram,
                    old(self)@.index as int,
                    vx as int,
                    vy as int,
                    n as int,
                ),
                ..old(self)@
            }),
            collided == rows_collide(
                old(self)@.fb,
                old(self)@.ram,
                old(self)@.index as int,
                vx as int,
                vy as int,
                n as int,
            ),
            final(self)@.fb.len() == 2048,
    {
        let ghost pre = self@;
        let mut collided = false;
        let mut row: usize = 0;
        while row < n as usize
            invariant
                row <= n as usize,
                n < 16,
                n > 0 ==> pre.index + n <= 4096,
                pre.wf(),
                self.ram@ == pre.ram,
                self.registers@ == pre.regs,
                self.stack@ == pre.stack,
                self.index == pre.index,
                self.pc == pre.pc,
                self.delay_timer == pre.delay,
                self.sound_timer == pre.sound,
                self.keyboard@.keys == pre.keys,
                self.keyboard@.last == pre.last_key,
                self.mode == pre.mode,
                self.display@.len() == 2048,
                self.display@ == fb_draw_rows(
                    pre.fb,
                    pre.ram,
                    pre.index as int,
                    vx as int,
                    vy as int,
                    row as int,
                ),
                collided == rows_collide(
                    pre.fb,
                    pre.ram,
                    pre.index as int,
                    vx as int,
                    vy as int,
                    row as int,
                ),
            decreases n as usize - row,
        {
            let b = self.ram[self.index as usize + row];
            let ghost fbr = self.display@;
            let ghost colr = collided;
            let mut col: usize = 0;
            while col < 8
                invariant
                    col <= 8,
                    row < n as usize,
                    n < 16,
                    pre.wf(),
                    pre.index + n <= 4096,
                    b == pre.ram[pre.index as int + row as int],
                    self.ram@ == pre.ram,
                    self.registers@ == pre.regs,
                    self.stack@ == pre.stack,
                    self.index == pre.index,
                    self.pc == pre.pc,
                    self.delay_timer == pre.delay,
                    self.sound_timer == pre.sound,
                    self.keyboard@.keys == pre.keys,
                    self.keyboard@.last == pre.last_key,
                    self.mode == pre.mode,
                    fbr.len() == 2048,
                    self.display@.len() == 2048,
                    self.display@ == fb_draw_cols(
                        fbr,
                        b,
                        vx as int,
                        vy as int + row as int,
                        col as int,
                    ),
                    collided == (colr || cols_collide(
                        fbr,
                        b,
                        vx as int,
                        vy as int + row as int,
                        col as int,
                    )),
                decreases 8 - col,
            {
                let shift: u8 = (7 - col) as u8;
                if ((b >> shift) & 1) == 1 {
                    proof {
                        assert(sprite_bit(b, col as int));
                    }
                    let off = self.display.set_pixel(vx as usize + col, vy as usize + row);
                    collided = collided || off;
                } else {
                    proof {
                        assert(!sprite_bit(b, col as int));
                    }
                }
                col = col + 1;
            }
            row = row + 1;
            proof {
                assert(self.display@ == fb_draw_rows(
                    pre.fb,
                    pre.ram,
                    pre.index as int,
                    vx as int,
                    vy as int,
                    row as int,
                ));
                assert(collided == rows_collide(
                    pre.fb,
                    pre.ram,
                    pre.index as int,
                    vx as int,
                    vy as int,
                    row as int,
                ));
            }
        }
        proof {
            assert(self@ =~= (CpuState {
                fb: fb_draw_rows(
                    pre.fb,
                    pre.ram,
                    pre.index as int,
                    vx as int,
                    vy as int,
                    n as int,
                ),
                ..pre
            }));
        }
        collided
    }

    /// `00E0` and `00EE`: clear the screen; return from a subroutine.
    #[verifier::rlimit(100)]
    fn exec_sys(&mut self, i: Instr, rand: u8) -> (r: Result<(), ExecError>)
        requires
            old(self)@.wf(),
            old(self)@.pc <= 4094,
            instr_wf(i),
            match i {
                Instr::Cls | Instr::Ret => true,
                _ => false,
            },
        ensures
            final(self)@.wf(),
            match exec_instr_spec(advance_pc(old(self)@), i, rand) {
                Ok(s2) => r is Ok && final(self)@ == s2,
                Err(e) => r == Err::<(), ExecError>(e) && final(self)@ == old(self)@,
            },
    {
        proof {
            reveal(exec_instr_spec);
        }
        match i {
            Instr::Cls => {
                self.pc = self.pc + 2;
                self.display.clear();
                proof {
                    assert(self@ =~= (CpuState { fb: blank_fb(), ..advance_pc(old(self)@) }));
                }
                Ok(())
            },
            Instr::Ret => {
                if self.stack.len() == 0 {
                    return Err(ExecError::StackUnderflow);
                }
                let a = match self.stack.pop() {
                    Some(v) => v,
                    None => {
                        proof {
                            assert(false);
                        }
                        0
                    },
                };
                self.pc = a;
                proof {
                    assert(self@ =~= (CpuState {
                        pc: old(self)@.stack.last(),
                        stack: old(self)@.stack.drop_last(),
                        ..advance_pc(old(self)@)
                    }));
                }
                Ok(())
            },
            _ => {
                proof {
                    assert(false);
                }
                Err(ExecError::OutOfBounds)
            },
        }
    }

    /// `1nnn`, `2nnn` and `Bnnn`: the jumps and the subroutine call.
    #[verifier::rlimit(100)]
    fn exec_flow(&mut self, i: Instr, rand: u8) -> (r: Result<(), ExecError>)
        requires
            old(self)@.wf(),
            old(self)@.pc <= 4094,
            instr_wf(i),
            match i {
                Instr::Jump { .. } | Instr::Call { .. } | Instr::JumpV0 { .. } => true,
                _ => false,
            },
        ensures
            final(self)@.wf(),
            match exec_instr_spec(advance_pc(old(self)@), i, rand) {
                Ok(s2) => r is Ok && final(self)@ == s2,
                Err(e) => r == Err::<(), ExecError>(e) && final(self)@ == old(self)@,
            },
    {
        proof {
            reveal(exec_instr_spec);
        }
        match i {
            Instr::Jump { nnn } => {
                self.pc = nnn;
                proof {
                    assert(self@ =~= (CpuState { pc: nnn, ..advance_pc(old(self)@) }));
                }
                Ok(())
            },
            Instr::Call { nnn } => {
                if self.stack.len() >= 16 {
                    return Err(ExecError::StackOverflow);
                }
                self.pc = self.pc + 2;
                self.stack.push(self.pc);
                self.pc = nnn;
                proof {
                    let s1 = advance_pc(old(self)@);
                    assert(self@ =~= (CpuState { pc: nnn, stack: s1.stack.push(s1.pc), ..s1 }));
                }
                Ok(())
            },
            Instr::JumpV0 { nnn } => {
                self.pc = self.pc + 2;
                self.pc = (self.registers[0] as u16) + nnn;
                proof {
                    let s1 = advance_pc(old(self)@);
                    assert(self@ =~= (CpuState { pc: (s1.regs[0] + nnn) as u16, ..s1 }));
                }
                Ok(())
            },
            _ => {
                proof {
                    assert(false);
                }
                Err(ExecError::OutOfBounds)
            },
        }
    }

    /// The six conditional skips: on immediates, registers and keys.
    #[verifier::rlimit(100)]
    fn exec_skip(&mut self, i: Instr, rand: u8) -> (r: Result<(), ExecError>)
        requires
            old(self)@.wf(),
            old(self)@.pc <= 4094,
            instr_wf(i),
            match i {
                Instr::SkipEqImm { .. } | Instr::SkipNeImm { .. } | Instr::SkipEqReg { .. }
                | Instr::SkipNeReg { .. } | Instr::SkipKey { .. } | Instr::SkipNoKey { .. } => true,
                _ => false,
            },
        ensures
            final(self)@.wf(),
            match exec_instr_spec(advance_pc(old(self)@), i, rand) {
                Ok(s2) => r is Ok && final(self)@ == s2,
                Err(e) => r == Err::<(), ExecError>(e) && final(self)@ == old(self)@,
            },
    {
        proof {
            reveal(exec_instr_spec);
        }
        match i {
            Instr::SkipEqImm { x, kk } => {
                self.pc = self.pc + 2;
                if self.registers[x as usize] == kk {
                    self.pc = self.pc + 2;
                }
                proof {
                    let s1 = advance_pc(old(self)@);
                    if s1.regs[x as int] == kk {
                        assert(self@ =~= (CpuState { pc: (s1.pc + 2) as u16, ..s1 }));
                    } else {
                        assert(self@ =~= s1);
                    }
                }
                Ok(())
            },
            Instr::SkipNeImm { x, kk } => {
                self.pc = self.pc + 2;
                if self.registers[x as usize] != kk {
                    self.pc = self.pc + 2;
                }
                proof {
                    let s1 = advance_pc(old(self)@);
                    if s1.regs[x as int] != kk {
                        assert(self@ =~= (CpuState { pc: (s1.pc + 2) as u16, ..s1 }));
                    } else {
                        assert(self@ =~= s1);
                    }
                }
                Ok(())
            },
            Instr::SkipEqReg { x, y } => {
                self.pc = self.pc + 2;
                if self.registers[x as usize] == self.registers[y as usize] {
                    self.pc = self.pc + 2;
                }
                proof {
                    let s1 = advance_pc(old(self)@);
                    if s1.regs[x as int] == s1.regs[y as int] {
                        assert(self@ =~= (CpuState { pc: (s1.pc + 2) as u16, ..s1 }));
                    } else {
                        assert(self@ =~= s1);
                    }
                }
                Ok(())
            },
            Instr::SkipNeReg { x, y } => {
                self.pc = self.pc + 2;
                if self.registers[x as usize] != self.registers[y as usize] {
                    self.pc = self.pc + 2;
                }
                proof {
                    let s1 = advance_pc(old(self)@);
                    if s1.regs[x as int] != s1.regs[y as int] {
                        assert(self@ =~= (CpuState { pc: (s1.pc + 2) as u16, ..s1 }));
                    } else {
                        assert(self@ =~= s1);
                    }
                }
                Ok(())
            },
            Instr::SkipKey { x } => {
                self.pc = self.pc + 2;
                let vx = self.registers[x as usize];
                let pressed = if vx < 16 {
                    self.keyboard.is_pressed(vx)
                } else {
                    false
                };
                if pressed {
                    self.pc = self.pc + 2;
                }
                proof {
                    let s1 = advance_pc(old(self)@);
                    if vx < 16 && s1.keys[vx as int] {
                        assert(self@ =~= (CpuState { pc: (s1.pc + 2) as u16, ..s1 }));
                    } else {
                        assert(self@ =~= s1);
                    }
                }
                Ok(())
            },
            Instr::SkipNoKey { x } => {
                self.pc = self.pc + 2;
                let vx = self.registers[x as usize];
                let pressed = if vx < 16 {
                    self.keyboard.is_pressed(vx)
                } else {
                    false
                };
                if !pressed {
                    self.pc = self.pc + 2;
                }
                proof {
                    let s1 = advance_pc(old(self)@);
                    if !(vx < 16 && s1.keys[vx as int]) {
                        assert(self@ =~= (CpuState { pc: (s1.pc + 2) as u16, ..s1 }));
                    } else {
                        assert(self@ =~= s1);
                    }
                }
                Ok(())
            },
            _ => {
                proof {
                    assert(false);
                }
                Err(ExecError::OutOfBounds)
            },
        }
    }

    /// `6xkk`, `7xkk` and `Cxkk`: load and add immediates, and the random
    /// byte masked by an immediate.
    #[verifier::rlimit(100)]
    fn exec_alu_imm(&mut self, i: Instr, rand: u8) -> (r: Result<(), ExecError>)
        requires
            old(self)@.wf(),
            old(self)@.pc <= 4094,
            instr_wf(i),
            match i {
                Instr::LoadImm { .. } | Instr::AddImm { .. } | Instr::Random { .. } => true,
                _ => false,
            },
        ensures
            final(self)@.wf(),
            match exec_instr_spec(advance_pc(old(self)@), i, rand) {
                Ok(s2) => r is Ok && final(self)@ == s2,
                Err(e) => r == Err::<(), ExecError>(e) && final(self)@ == old(self)@,
            },
    {
        proof {
            reveal(exec_instr_spec);
        }
        match i {
            Instr::LoadImm { x, kk } => {
                self.pc = self.pc + 2;
                self.registers.set(x as usize, kk);
                proof {
                    let s1 = advance_pc(old(self)@);
                    assert(self@ =~= (CpuState { regs: s1.regs.update(x as int, kk), ..s1 }));
                }
                Ok(())
            },
            Instr::AddImm { x, kk } => {
                self.pc = self.pc + 2;
                let sum = (self.registers[x as usize] as u16) + (kk as u16);
                self.registers.set(x as usize, (sum % 256) as u8);
                proof {
                    let s1 = advance_pc(old(self)@);
                    assert(self@ =~= (CpuState {
                        regs: s1.regs.update(x as int, ((s1.regs[x as int] + kk) % 256) as u8),
                        ..s1
                    }));
                }
                Ok(())
            },
            Instr::Random { x, kk } => {
                self.pc = self.pc + 2;
                self.registers.set(x as usize, kk & rand);
                proof {
                    let s1 = advance_pc(old(self)@);
                    assert(self@ =~= (CpuState { regs: s1.regs.update(x as int, kk & rand), ..s1 }));
                }
                Ok(())
            },
            _ => {
                proof {
                    assert(false);
                }
                Err(ExecError::OutOfBounds)
            },
        }
    }

    /// The `8xy_` copy and bitwise instructions.
    #[verifier::rlimit(100)]
    fn exec_alu_bit(&mut self, i: Instr, rand: u8) -> (r: Result<(), ExecError>)
        requires
            old(self)@.wf(),
            old(self)@.pc <= 4094,
            instr_wf(i),
            match i {
                Instr::Move { .. } | Instr::Or { .. } | Instr::And { .. } | Instr::Xor { .. } => true,
                _ => false,
            },
        ensures
            final(self)@.wf(),
            match exec_instr_spec(advance_pc(old(self)@), i, rand) {
                Ok(s2) => r is Ok && final(self)@ == s2,
                Err(e) => r == Err::<(), ExecError>(e) && final(self)@ == old(self)@,
            },
    {
        proof {
            reveal(exec_instr_spec);
        }
        match i {
            Instr::Move { x, y } => {
                self.pc = self.pc + 2;
                let vy = self.registers[y as usize];
                self.registers.set(x as usize, vy);
                proof {
                    let s1 = advance_pc(old(self)@);
                    assert(self@ =~= (CpuState {
                        regs: s1.regs.update(x as int, s1.regs[y as int]),
                        ..s1
                    }));
                }
                Ok(())
            },
            Instr::Or { x, y } => {
                self.pc = self.pc + 2;
                let v = self.registers[x as usize] | self.registers[y as usize];
                self.registers.set(x as usize, v);
                proof {
                    let s1 = advance_pc(old(self)@);
                    assert(self@ =~= (CpuState {
                        regs: s1.regs.update(x as int, s1.regs[x as int] | s1.regs[y as int]),
                        ..s1
                    }));
                }
                Ok(())
            },
            Instr::And { x, y } => {
                self.pc = self.pc + 2;
                let v = self.registers[x as usize] & self.registers[y as usize];
                self.registers.set(x as usize, v);
                proof {
                    let s1 = advance_pc(old(self)@);
                    assert(self@ =~= (CpuState {
                        regs: s1.regs.update(x as int, s1.regs[x as int] & s1.regs[y as int]),
                        ..s1
                    }));
                }
                Ok(())
            },
            Instr::Xor { x, y } => {
                self.pc = self.pc + 2;
                let v = self.registers[x as usize] ^ self.registers[y as usize];
                self.registers.set(x as usize, v);
                proof {
                    let s1 = advance_pc(old(self)@);
                    assert(self@ =~= (CpuState {
                        regs: s1.regs.update(x as int, s1.regs[x as int] ^ s1.regs[y as int]),
                        ..s1
                    }));
                }
                Ok(())
            },
            _ => {
                proof {
                    assert(false);
                }
                Err(ExecError::OutOfBounds)
            },
        }
    }

    /// The `8xy_` flagged arithmetic: add with carry, the two subtracts
    /// with their no-borrow flags, and the two shifts.
    #[verifier::rlimit(100)]
    fn exec_alu_arith(&mut self, i: Instr, rand: u8) -> (r: Result<(), ExecError>)
        requires
            old(self)@.wf(),
            old(self)@.pc <= 4094,
            instr_wf(i),
            match i {
                Instr::Add { .. } | Instr::Sub { .. } | Instr::Shr { .. } | Instr::SubN { .. }
                | Instr::Shl { .. } => true,
                _ => false,
            },
        ensures
            final(self)@.wf(),
            match exec_instr_spec(advance_pc(old(self)@), i, rand) {
                Ok(s2) => r is Ok && final(self)@ == s2,
                Err(e) => r == Err::<(), ExecError>(e) && final(self)@ == old(self)@,
            },
    {
        proof {
            reveal(exec_instr_spec);
        }
        match i {
            Instr::Add { x, y } => {
                self.pc = self.pc + 2;
                let sum = (self.registers[x as usize] as u16) + (self.registers[y as usize] as u16);
                self.registers.set(x as usize, (sum % 256) as u8);
                self.registers.set(15, if sum > 255 { 1 } else { 0 });
                proof {
                    let s1 = advance_pc(old(self)@);
                    let sums = s1.regs[x as int] + s1.regs[y as int];
                    assert(self@ =~= (CpuState {
                        regs: s1.regs.update(x as int, (sums % 256) as u8).update(
                            15,
                            if sums > 255 {
                                1u8
                            } else {
                                0u8
                            },
                        ),
                        ..s1
                    }));
                }
                Ok(())
            },
            Instr::Sub { x, y } => {
                self.pc = self.pc + 2;
                let vx = self.registers[x as usize];
                let vy = self.registers[y as usize];
                let diff = ((vx as u16) + 256 - (vy as u16)) % 256;
                self.registers.set(x as usize, diff as u8);
                self.registers.set(15, if vx >= vy { 1 } else { 0 });
                proof {
                    let s1 = advance_pc(old(self)@);
                    assert(diff as int == (vx as int - vy as int) % 256);
                    assert(self@ =~= (CpuState {
                        regs: s1.regs.update(x as int, ((vx - vy) % 256) as u8).update(
                            15,
                            if vx >= vy {
                                1u8
                            } else {
                                0u8
                            },
                        ),
                        ..s1
                    }));
                }
                Ok(())
            },
            Instr::Shr { x } => {
                self.pc = self.pc + 2;
                let vx = self.registers[x as usize];
                self.registers.set(x as usize, vx >> 1);
                self.registers.set(15, vx & 1);
                proof {
                    let s1 = advance_pc(old(self)@);
                    assert(self@ =~= (CpuState {
                        regs: s1.regs.update(x as int, vx >> 1).update(15, vx & 1),
                        ..s1
                    }));
                }
                Ok(())
            },
            Instr::SubN { x, y } => {
                self.pc = self.pc + 2;
                let vx = self.registers[x as usize];
                let vy = self.registers[y as usize];
                let diff = ((vy as u16) + 256 - (vx as u16)) % 256;
                self.registers.set(x as usize, diff as u8);
                self.registers.set(15, if vy >= vx { 1 } else { 0 });
                proof {
                    let s1 = advance_pc(old(self)@);
                    assert(diff as int == (vy as int - vx as int) % 256);
                    assert(self@ =~= (CpuState {
                        regs: s1.regs.update(x as int, ((vy - vx) % 256) as u8).update(
                            15,
                            if vy >= vx {
                                1u8
                            } else {
                                0u8
                            },
                        ),
                        ..s1
                    }));
                }
                Ok(())
            },
            Instr::Shl { x } => {
                self.pc = self.pc + 2;
                let vx = self.registers[x as usize];
                self.registers.set(x as usize, vx << 1);
                self.registers.set(15, vx >> 7);
                proof {
                    let s1 = advance_pc(old(self)@);
                    assert(self@ =~= (CpuState {
                        regs: s1.regs.update(x as int, vx << 1).update(15, vx >> 7),
                        ..s1
                    }));
                }
                Ok(())
            },
            _ => {
                proof {
                    assert(false);
                }
                Err(ExecError::OutOfBounds)
            },
        }
    }

    /// `Annn`, `Fx1E` and `Fx29`: the index register.
    #[verifier::rlimit(100)]
    fn exec_index(&mut self, i: Instr, rand: u8) -> (r: Result<(), ExecError>)
        requires
            old(self)@.wf(),
            old(self)@.pc <= 4094,
            instr_wf(i),
            match i {
                Instr::LoadIndex { .. } | Instr::AddIndex { .. } | Instr::FontIndex { .. } => true,
                _ => false,
            },
        ensures
            final(self)@.wf(),
            match exec_instr_spec(advance_pc(old(self)@), i, rand) {
                Ok(s2) => r is Ok && final(self)@ == s2,
                Err(e) => r == Err::<(), ExecError>(e) && final(self)@ == old(self)@,
            },
    {
        proof {
            reveal(exec_instr_spec);
        }
        match i {
            Instr::LoadIndex { nnn } => {
                self.pc = self.pc + 2;
                self.index = nnn;
                proof {
                    assert(self@ =~= (CpuState { index: nnn, ..advance_pc(old(self)@) }));
                }
                Ok(())
            },
            Instr::AddIndex { x } => {
                let vx = self.registers[x as usize];
                let ni: u32 = (self.index as u32) + (vx as u32);
                if ni > 0xFFF {
                    return Err(ExecError::OutOfBounds);
                }
                self.pc = self.pc + 2;
                self.index = ni as u16;
                proof {
                    assert(self@ =~= (CpuState { index: ni as u16, ..advance_pc(old(self)@) }));
                }
                Ok(())
            },
            Instr::FontIndex { x } => {
                self.pc = self.pc + 2;
                self.index = (self.registers[x as usize] as u16) * 5;
                proof {
                    let s1 = advance_pc(old(self)@);
                    assert(self@ =~= (CpuState { index: (s1.regs[x as int] * 5) as u16, ..s1 }));
                }
                Ok(())
            },
            _ => {
                proof {
                    assert(false);
                }
                Err(ExecError::OutOfBounds)
            },
        }
    }

    /// `Fx33`, `Fx55` and `Fx65`: BCD decomposition and the register file
    /// transfers to and from memory.
    #[verifier::rlimit(100)]
    fn exec_mem(&mut self, i: Instr, rand: u8) -> (r: Result<(), ExecError>)
        requires
            old(self)@.wf(),
            old(self)@.pc <= 4094,
            instr_wf(i),
            match i {
                Instr::Bcd { .. } | Instr::StoreRegs { .. } | Instr::LoadRegs { .. } => true,
                _ => false,
            },
        ensures
            final(self)@.wf(),
            match exec_instr_spec(advance_pc(old(self)@), i, rand) {
                Ok(s2) => r is Ok && final(self)@ == s2,
                Err(e) => r == Err::<(), ExecError>(e) && final(self)@ == old(self)@,
            },
    {
        proof {
            reveal(exec_instr_spec);
        }
        match i {
            Instr::Bcd { x } => {
                if (self.index as usize) + 2 > 4095 {
                    return Err(ExecError::OutOfBounds);
                }
                self.pc = self.pc + 2;
                let vx = self.registers[x as usize];
                let i0 = self.index as usize;
                self.ram.set(i0, vx / 100);
                self.ram.set(i0 + 1, (vx / 10) % 10);
                self.ram.set(i0 + 2, vx % 10);
                proof {
                    let s1 = advance_pc(old(self)@);
                    assert(self@ =~= (CpuState {
                        ram: s1.ram.update(s1.index as int, (vx / 100) as u8).update(
                            s1.index as int + 1,
                            ((vx / 10) % 10) as u8,
                        ).update(s1.index as int + 2, (vx % 10) as u8),
                        ..s1
                    }));
                }
                Ok(())
            },
            Instr::StoreRegs { x } => {
                if (self.index as usize) + (x as usize) > 4095 {
                    return Err(ExecError::OutOfBounds);
                }
                self.pc = self.pc + 2;
                let ghost pre = self@;
                let i0 = self.index as usize;
                let mut j: usize = 0;
                while j <= x as usize
                    invariant
                        j <= x as usize + 1,
                        x < 16,
                        pre.wf(),
                        i0 == pre.index,
                        i0 + x <= 4095,
                        self.ram@.len() == 4096,
                        forall|t: int| i0 <= t < i0 + j ==> self.ram@[t] == pre.regs[t - i0],
                        forall|t: int|
                            0 <= t < 4096 && !(i0 <= t < i0 + j) ==> self.ram@[t] == pre.ram[t],
                        self.registers@ == pre.regs,
                        self.stack@ == pre.stack,
                        self.index == pre.index,
                        self.pc == pre.pc,
                        self.delay_timer == pre.delay,
                        self.sound_timer == pre.sound,
                        self.display@ == pre.fb,
                        self.keyboard@.keys == pre.keys,
                        self.keyboard@.last == pre.last_key,
                        self.mode == pre.mode,
                    decreases x as usize + 1 - j,
                {
                    let v = self.registers[j];
                    self.ram.set(i0 + j, v);
                    j = j + 1;
                }
                proof {
                    assert(self@.ram =~= store_regs_ram(pre.ram, pre.regs, i0 as int, x as int));
                    assert(self@ =~= (CpuState {
                        ram: store_regs_ram(pre.ram, pre.regs, i0 as int, x as int),
                        ..pre
                    }));
                    assert(pre =~= advance_pc(old(self)@));
                }
                Ok(())
            },
            Instr::LoadRegs { x } => {
                if (self.index as usize) + (x as usize) > 4095 {
                    return Err(ExecError::OutOfBounds);
                }
                self.pc = self.pc + 2;
                let ghost pre = self@;
                let i0 = self.index as usize;
                let mut j: usize = 0;
                while j <= x as usize
                    invariant
                        j <= x as usize + 1,
                        x < 16,
                        pre.wf(),
                        i0 == pre.index,
                        i0 + x <= 4095,
                        self.registers@.len() == 16,
                        forall|t: int| 0 <= t < j ==> self.registers@[t] == pre.ram[i0 + t],
                        forall|t: int| j <= t < 16 ==> self.registers@[t] == pre.regs[t],
                        self.ram@ == pre.ram,
                        self.stack@ == pre.stack,
                        self.index == pre.index,
                        self.pc == pre.pc,
                        self.delay_timer == pre.delay,
                        self.sound_timer == pre.sound,
                        self.display@ == pre.fb,
                        self.keyboard@.keys == pre.keys,
                        self.keyboard@.last == pre.last_key,
                        self.mode == pre.mode,
                    decreases x as usize + 1 - j,
                {
                    let v = self.ram[i0 + j];
                    self.registers.set(j, v);
                    j = j + 1;
                }
                proof {
                    assert(self@.regs =~= load_regs_file(pre.regs, pre.ram, i0 as int, x as int));
                    assert(self@ =~= (CpuState {
                        regs: load_regs_file(pre.regs, pre.ram, i0 as int, x as int),
                        ..pre
                    }));
                    assert(pre =~= advance_pc(old(self)@));
                }
                Ok(())
            },
            _ => {
                proof {
                    assert(false);
                }
                Err(ExecError::OutOfBounds)
            },
        }
    }

    /// `Fx07`, `Fx0A`, `Fx15` and `Fx18`: the timers and the key wait.
    #[verifier::rlimit(100)]
    fn exec_timer(&mut self, i: Instr, rand: u8) -> (r: Result<(), ExecError>)
        requires
            old(self)@.wf(),
            old(self)@.pc <= 4094,
            instr_wf(i),
            match i {
                Instr::ReadDelay { .. } | Instr::WaitKey { .. } | Instr::SetDelay { .. }
                | Instr::SetSound { .. } => true,
                _ => false,
            },
        ensures
            final(self)@.wf(),
            match exec_instr_spec(advance_pc(old(self)@), i, rand) {
                Ok(s2) => r is Ok && final(self)@ == s2,
                Err(e) => r == Err::<(), ExecError>(e) && final(self)@ == old(self)@,
            },
    {
        proof {
            reveal(exec_instr_spec);
        }
        match i {
            Instr::ReadDelay { x } => {
                self.pc = self.pc + 2;
                let d = self.delay_timer;
                self.registers.set(x as usize, d);
                proof {
                    let s1 = advance_pc(old(self)@);
                    assert(self@ =~= (CpuState { regs: s1.regs.update(x as int, s1.delay), ..s1 }));
                }
                Ok(())
            },
            Instr::WaitKey { x } => {
                self.pc = self.pc + 2;
                self.mode = Mode::WaitingForKey { reg: x };
                self.keyboard.clear_last();
                proof {
                    assert(self@ =~= (CpuState {
                        mode: Mode::WaitingForKey { reg: x },
                        last_key: None,
                        ..advance_pc(old(self)@)
                    }));
                }
                Ok(())
            },
            Instr::SetDelay { x } => {
                self.pc = self.pc + 2;
                self.delay_timer = self.registers[x as usize];
                proof {
                    let s1 = advance_pc(old(self)@);
                    assert(self@ =~= (CpuState { delay: s1.regs[x as int], ..s1 }));
                }
                Ok(())
            },
            Instr::SetSound { x } => {
                self.pc = self.pc + 2;
                self.sound_timer = self.registers[x as usize];
                proof {
                    let s1 = advance_pc(old(self)@);
                    assert(self@ =~= (CpuState { sound: s1.regs[x as int], ..s1 }));
                }
                Ok(())
            },
            _ => {
                proof {
                    assert(false);
                }
                Err(ExecError::OutOfBounds)
            },
        }
    }

    /// `Dxyn`: the sprite draw with its collision flag.
    #[verifier::rlimit(100)]
    fn exec_draw(&mut self, i: Instr, rand: u8) -> (r: Result<(), ExecError>)
        requires
            old(self)@.wf(),
            old(self)@.pc <= 4094,
            instr_wf(i),
            i matches Instr::Draw { .. },
        ensures
            final(self)@.wf(),
            match exec_instr_spec(advance_pc(old(self)@), i, rand) {
                Ok(s2) => r is Ok && final(self)@ == s2,
                Err(e) => r == Err::<(), ExecError>(e) && final(self)@ == old(self)@,
            },
    {
        proof {
            reveal(exec_instr_spec);
        }
        match i {
            Instr::Draw { x, y, n } => {
                if n > 0 && (self.index as usize) + (n as usize) > 4096 {
                    return Err(ExecError::OutOfBounds);
                }
                self.pc = self.pc + 2;
                let vx = self.registers[x as usize];
                let vy = self.registers[y as usize];
                let collided = self.draw_sprite(vx, vy, n);
                self.registers.set(15, if collided { 1 } else { 0 });
                proof {
                    let s1 = advance_pc(old(self)@);
                    assert(self@ =~= (CpuState {
                        fb: fb_draw_rows(
                            s1.fb,
                            s1.ram,
                            s1.index as int,
                            s1.regs[x as int] as int,
                            s1.regs[y as int] as int,
                            n as int,
                        ),
                        regs: s1.regs.update(
                            15,
                            if rows_collide(
                                s1.fb,
                                s1.ram,
                                s1.index as int,
                                s1.regs[x as int] as int,
                                s1.regs[y as int] as int,
                                n as int,
                            ) {
                                1u8
                            } else {
                                0u8
                            },
                        ),
                        ..s1
                    }));
                }
                Ok(())
            },
            _ => {
                proof {
                    assert(false);
                }
                Err(ExecError::OutOfBounds)
            },
        }
    }

    /// Dispatch one already-fetched opcode word: the program counter moves
    /// past it, then the word executes, or is reported as undefined and
    /// skipped, or fails fatally leaving the machine untouched.
    pub fn execute_instruction(&mut self, opcode: u16, random_byte: u8) -> (r: Result<
        StepOutcome,
        ExecError,
    >)
        requires
            old(self)@.wf(),
            old(self)@.pc <= 4094,
        ensures
            final(self)@.wf(),
            match op_spec(old(self)@, opcode, random_byte) {
                Ok((s2, oc)) => r == Ok::<StepOutcome, ExecError>(oc) && final(self)@ == s2,
                Err(e) => r == Err::<StepOutcome, ExecError>(e) && final(self)@ == old(self)@,
            },
    {
        let i = match decode(opcode) {
            None => {
                self.pc = self.pc + 2;
                proof {
                    assert(self@ =~= advance_pc(old(self)@));
                }
                return Ok(StepOutcome::InvalidOpcode(opcode));
            },
            Some(i) => i,
        };
        let r = match i {
            Instr::Cls | Instr::Ret => self.exec_sys(i, random_byte),
            Instr::Jump { .. } | Instr::Call { .. } | Instr::JumpV0 { .. } => self.exec_flow(
                i,
                random_byte,
            ),
            Instr::SkipEqImm { .. } | Instr::SkipNeImm { .. } | Instr::SkipEqReg { .. }
            | Instr::SkipNeReg { .. } | Instr::SkipKey { .. } | Instr::SkipNoKey { .. } => self
                .exec_skip(i, random_byte),
            Instr::LoadImm { .. } | Instr::AddImm { .. } | Instr::Random { .. } => self
                .exec_alu_imm(i, random_byte),
            Instr::Move { .. } | Instr::Or { .. } | Instr::And { .. } | Instr::Xor { .. } => self
                .exec_alu_bit(i, random_byte),
            Instr::Add { .. } | Instr::Sub { .. } | Instr::Shr { .. } | Instr::SubN { .. }
            | Instr::Shl { .. } => self.exec_alu_arith(i, random_byte),
            Instr::LoadIndex { .. } | Instr::AddIndex { .. } | Instr::FontIndex { .. } => self
                .exec_index(i, random_byte),
            Instr::Bcd { .. } | Instr::StoreRegs { .. } | Instr::LoadRegs { .. } => self.exec_mem(
                i,
                random_byte,
            ),
            Instr::ReadDelay { .. } | Instr::WaitKey { .. } | Instr::SetDelay { .. }
            | Instr::SetSound { .. } => self.exec_timer(i, random_byte),
            Instr::Draw { .. } => self.exec_draw(i, random_byte),
        };
        match r {
            Ok(()) => Ok(StepOutcome::Executed),
            Err(e) => Err(e),
        }
    }

    /// One cycle of the machine: while waiting for a key only the keypad is
    /// consulted; otherwise the word at the program counter is fetched and
    /// dispatched. `random_byte` feeds a `Cxkk` instruction, should the cycle
    /// execute one.
    pub fn step(&mut self, random_byte: u8) -> (r: Result<StepOutcome, ExecError>)
        requires
            old(self)@.wf(),
        ensures
            final(self)@.wf(),
            match step_spec(old(self)@, random_byte) {
                Ok((s2, oc)) => r == Ok::<StepOutcome, ExecError>(oc) && final(self)@ == s2,
                Err(e) => r == Err::<StepOutcome, ExecError>(e) && final(self)@ == old(self)@,
            },
    {
        match self.mode {
            Mode::WaitingForKey { reg } => {
                match self.keyboard.last_key() {
                    Some(k) => {
                        self.registers.set(reg as usize, k);
                        self.mode = Mode::Running;
                        proof {
                            assert(self@ =~= (CpuState {
                                regs: old(self)@.regs.update(reg as int, k),
                                mode: Mode::Running,
                                ..old(self)@
                            }));
                        }
                        Ok(StepOutcome::Executed)
                    },
                    None => Ok(StepOutcome::Waiting),
                }
            },
            Mode::Running => {
                if self.pc >= 4095 {
                    return Err(ExecError::OutOfBounds);
                }
                let hi = self.ram[self.pc as usize];
                let lo = self.ram[self.pc as usize + 1];
                let op = (hi as u16) * 256 + (lo as u16);
                proof {
                    assert(op == fetched_opcode(old(self)@));
                }
                self.execute_instruction(op, random_byte)
            },
        }
    }

    /// Run up to `batch_size` consecutive cycles, feeding each a fresh random
    /// byte; a fatal error stops the batch with the machine left exactly as
    /// the failing cycle found it.
    pub fn execute_one_batch(&mut self, batch_size: u8) -> (r: Result<(), ExecError>)
        requires
            old(self)@.wf(),
        ensures
            final(self)@.wf(),
            exists|rs: Seq<u8>|
                rs.len() == batch_size as nat && run_spec(old(self)@, rs) == (
                    final(self)@,
                    match r {
                        Ok(_) => None::<ExecError>,
                        Err(e) => Some(e),
                    },
                ),
    {
        let ghost s0 = self@;
        let ghost mut rs: Seq<u8> = Seq::empty();
        let mut k: u8 = 0;
        while k < batch_size
            invariant
                self@.wf(),
                s0 == old(self)@,
                k <= batch_size,
                rs.len() == k as nat,
                run_spec(s0, rs) == (self@, None::<ExecError>),
            decreases batch_size - k,
        {
            let b = random_byte();
            match self.step(b) {
                Ok(_) => {
                    proof {
                        lemma_run_snoc(s0, rs, b);
                        rs = rs.push(b);
                    }
                    k = k + 1;
                },
                Err(e) => {
                    proof {
                        lemma_run_snoc(s0, rs, b);
                        rs = rs.push(b);
                        let pad = Seq::new((batch_size - k - 1) as nat, |t: int| 0u8);
                        lemma_run_pad(s0, rs, pad);
                        rs = rs + pad;
                        assert(rs.len() == batch_size as nat && run_spec(old(self)@, rs) == (
                            self@,
                            Some(e),
                        ));
                    }
                    return Err(e);
                },
            }
        }
        proof {
            assert(rs.len() == batch_size as nat && run_spec(old(self)@, rs) == (
                self@,
                None::<ExecError>,
            ));
        }
        Ok(())
    }
}

/// Relies on rand::thread_rng and rand::Rng::gen: one sample of a uniformly
/// distributed random byte. Nothing is promised of the value.
#[verifier::external_body]
fn random_byte() -> u8 {
    rand::Rng::gen::<u8>(&mut rand::thread_rng())
}

} // verus!
