//! Decoding of 16-bit opcode words into instructions.

use vstd::prelude::*;

verus! {

/// One decoded CHIP-8 instruction. Register indices are nibbles (`< 16`),
/// `nnn` is a 12-bit address, `kk` an immediate byte, `n` a sprite height.
#[derive(Clone, Copy, Debug, PartialEq, Eq, Structural)]
pub enum Instr {
    /// `00E0`: clear the framebuffer.
    Cls,
    /// `00EE`: return from a subroutine.
    Ret,
    /// `1nnn`: jump to `nnn`.
    Jump { nnn: u16 },
    /// `2nnn`: call the subroutine at `nnn`.
    Call { nnn: u16 },
    /// `3xkk`: skip the next instruction if `Vx == kk`.
    SkipEqImm { x: u8, kk: u8 },
    /// `4xkk`: skip the next instruction if `Vx != kk`.
    SkipNeImm { x: u8, kk: u8 },
    /// `5xy0`: skip the next instruction if `Vx == Vy`.
    SkipEqReg { x: u8, y: u8 },
    /// `6xkk`: `Vx = kk`.
    LoadImm { x: u8, kk: u8 },
    /// `7xkk`: `Vx += kk`, 8-bit wraparound, no flag.
    AddImm { x: u8, kk: u8 },
    /// `8xy0`: `Vx = Vy`.
    Move { x: u8, y: u8 },
    /// `8xy1`: `Vx |= Vy`.
    Or { x: u8, y: u8 },
    /// `8xy2`: `Vx &= Vy`.
    And { x: u8, y: u8 },
    /// `8xy3`: `Vx ^= Vy`.
    Xor { x: u8, y: u8 },
    /// `8xy4`: `Vx += Vy`; VF = 1 iff the 9-bit sum exceeds 255.
    Add { x: u8, y: u8 },
    /// `8xy5`: `Vx -= Vy`; VF = 1 iff no borrow (`Vx >= Vy`).
    Sub { x: u8, y: u8 },
    /// `8xy6`: `Vx >>= 1`; VF = the bit shifted out.
    Shr { x: u8 },
    /// `8xy7`: `Vx = Vy - Vx`; VF = 1 iff no borrow (`Vy >= Vx`).
    SubN { x: u8, y: u8 },
    /// `8xyE`: `Vx <<= 1`; VF = the bit shifted out.
    Shl { x: u8 },
    /// `9xy0`: skip the next instruction if `Vx != Vy`.
    SkipNeReg { x: u8, y: u8 },
    /// `Annn`: `I = nnn`.
    LoadIndex { nnn: u16 },
    /// `Bnnn`: jump to `V0 + nnn`.
    JumpV0 { nnn: u16 },
    /// `Cxkk`: `Vx = random byte & kk`.
    Random { x: u8, kk: u8 },
    /// `Dxyn`: draw the `n`-row sprite at `I` at `(Vx, Vy)`; VF = collision.
    Draw { x: u8, y: u8, n: u8 },
    /// `Ex9E`: skip the next instruction if key `Vx` is pressed.
    SkipKey { x: u8 },
    /// `ExA1`: skip the next instruction if key `Vx` is not pressed.
    SkipNoKey { x: u8 },
    /// `Fx07`: `Vx = delay timer`.
    ReadDelay { x: u8 },
    /// `Fx0A`: block until a key is pressed, then store it in `Vx`.
    WaitKey { x: u8 },
    /// `Fx15`: `delay timer = Vx`.
    SetDelay { x: u8 },
    /// `Fx18`: `sound timer = Vx`.
    SetSound { x: u8 },
    /// `Fx1E`: `I += Vx`.
    AddIndex { x: u8 },
    /// `Fx29`: `I = font address of digit Vx` (`Vx * 5`).
    FontIndex { x: u8 },
    /// `Fx33`: write the BCD digits of Vx to `I, I+1, I+2`.
    Bcd { x: u8 },
    /// `Fx55`: store `V0..=Vx` to memory starting at `I`.
    StoreRegs { x: u8 },
    /// `Fx65`: load `V0..=Vx` from memory starting at `I`.
    LoadRegs { x: u8 },
}

/// Bounds that every decoded instruction's operands satisfy.
pub open spec fn instr_wf(i: Instr) -> bool {
    match i {
        Instr::Cls => true,
        Instr::Ret => true,
        Instr::Jump { nnn } => nnn < 4096,
        Instr::Call { nnn } => nnn < 4096,
        Instr::SkipEqImm { x, kk } => x < 16,
        Instr::SkipNeImm { x, kk } => x < 16,
        Instr::SkipEqReg { x, y } => x < 16 && y < 16,
        Instr::LoadImm { x, kk } => x < 16,
        Instr::AddImm { x, kk } => x < 16,
        Instr::Move { x, y } => x < 16 && y < 16,
        Instr::Or { x, y } => x < 16 && y < 16,
        Instr::And { x, y } => x < 16 && y < 16,
        Instr::Xor { x, y } => x < 16 && y < 16,
        Instr::Add { x, y } => x < 16 && y < 16,
        Instr::Sub { x, y } => x < 16 && y < 16,
        Instr::Shr { x } => x < 16,
        Instr::SubN { x, y } => x < 16 && y < 16,
        Instr::Shl { x } => x < 16,
        Instr::SkipNeReg { x, y } => x < 16 && y < 16,
        Instr::LoadIndex { nnn } => nnn < 4096,
        Instr::JumpV0 { nnn } => nnn < 4096,
        Instr::Random { x, kk } => x < 16,
        Instr::Draw { x, y, n } => x < 16 && y < 16 && n < 16,
        Instr::SkipKey { x } => x < 16,
        Instr::SkipNoKey { x } => x < 16,
        Instr::ReadDelay { x } => x < 16,
        Instr::WaitKey { x } => x < 16,
        Instr::SetDelay { x } => x < 16,
        Instr::SetSound { x } => x < 16,
        Instr::AddIndex { x } => x < 16,
        Instr::FontIndex { x } => x < 16,
        Instr::Bcd { x } => x < 16,
        Instr::StoreRegs { x } => x < 16,
        Instr::LoadRegs { x } => x < 16,
    }
}

/// Instructions that set the program counter themselves instead of letting
/// it advance by the usual two bytes: jumps, calls, returns and skips.
pub open spec fn sets_pc(i: Instr) -> bool {
    match i {
        Instr::Jump { .. } => true,
        Instr::Call { .. } => true,
        Instr::Ret => true,
        Instr::JumpV0 { .. } => true,
        Instr::SkipEqImm { .. } => true,
        Instr::SkipNeImm { .. } => true,
        Instr::SkipEqReg { .. } => true,
        Instr::SkipNeReg { .. } => true,
        Instr::SkipKey { .. } => true,
        Instr::SkipNoKey { .. } => true,
        _ => false,
    }
}

/// The meaning of a 16-bit opcode word: `None` for the opcode values that
/// CHIP-8 leaves undefined.
pub open spec fn spec_decode(op: u16) -> Option<Instr> {
    let x = ((op >> 8) & 0xF) as u8;
    let y = ((op >> 4) & 0xF) as u8;
    let kk = (op & 0xFF) as u8;
    let nnn = op & 0xFFF;
    let n = (op & 0xF) as u8;
    if op == 0x00E0 {
        Some(Instr::Cls)
    } else if op == 0x00EE {
        Some(Instr::Ret)
    } else if op & 0xF000 == 0x1000 {
        Some(Instr::Jump { nnn })
    } else if op & 0xF000 == 0x2000 {
        Some(Instr::Call { nnn })
    } else if op & 0xF000 == 0x3000 {
        Some(Instr::SkipEqImm { x, kk })
    } else if op & 0xF000 == 0x4000 {
        Some(Instr::SkipNeImm { x, kk })
    } else if op & 0xF00F == 0x5000 {
        Some(Instr::SkipEqReg { x, y })
    } else if op & 0xF000 == 0x6000 {
        Some(Instr::LoadImm { x, kk })
    } else if op & 0xF000 == 0x7000 {
        Some(Instr::AddImm { x, kk })
    } else if op & 0xF00F == 0x8000 {
        Some(Instr::Move { x, y })
    } else if op & 0xF00F == 0x8001 {
        Some(Instr::Or { x, y })
    } else if op & 0xF00F == 0x8002 {
        Some(Instr::And { x, y })
    } else if op & 0xF00F == 0x8003 {
        Some(Instr::Xor { x, y })
    } else if op & 0xF00F == 0x8004 {
        Some(Instr::Add { x, y })
    } else if op & 0xF00F == 0x8005 {
        Some(Instr::Sub { x, y })
    } else if op & 0xF00F == 0x8006 {
        Some(Instr::Shr { x })
    } else if op & 0xF00F == 0x8007 {
        Some(Instr::SubN { x, y })
    } else if op & 0xF00F == 0x800E {
        Some(Instr::Shl { x })
    } else if op & 0xF00F == 0x9000 {
        Some(Instr::SkipNeReg { x, y })
    } else if op & 0xF000 == 0xA000 {
        Some(Instr::LoadIndex { nnn })
    } else if op & 0xF000 == 0xB000 {
        Some(Instr::JumpV0 { nnn })
    } else if op & 0xF000 == 0xC000 {
        Some(Instr::Random { x, kk })
    } else if op & 0xF000 == 0xD000 {
        Some(Instr::Draw { x, y, n })
    } else if op & 0xF0FF == 0xE09E {
        Some(Instr::SkipKey { x })
    } else if op & 0xF0FF == 0xE0A1 {
        Some(Instr::SkipNoKey { x })
    } else if op & 0xF0FF == 0xF007 {
        Some(Instr::ReadDelay { x })
    } else if op & 0xF0FF == 0xF00A {
        Some(Instr::WaitKey { x })
    } else if op & 0xF0FF == 0xF015 {
        Some(Instr::SetDelay { x })
    } else if op & 0xF0FF == 0xF018 {
        Some(Instr::SetSound { x })
    } else if op & 0xF0FF == 0xF01E {
        Some(Instr::AddIndex { x })
    } else if op & 0xF0FF == 0xF029 {
        Some(Instr::FontIndex { x })
    } else if op & 0xF0FF == 0xF033 {
        Some(Instr::Bcd { x })
    } else if op & 0xF0FF == 0xF055 {
        Some(Instr::StoreRegs { x })
    } else if op & 0xF0FF == 0xF065 {
        Some(Instr::LoadRegs { x })
    } else {
        None
    }
}

/// Every instruction that `spec_decode` produces has in-range operands.
pub proof fn lemma_decode_wf(op: u16)
    ensures
        match spec_decode(op) {
            Some(i) => instr_wf(i),
            None => true,
        },
{
    assert(((op >> 8) & 0xF) < 16) by (bit_vector);
    assert(((op >> 4) & 0xF) < 16) by (bit_vector);
    assert((op & 0xFFF) < 4096) by (bit_vector);
    assert((op & 0xF) < 16) by (bit_vector);
}

/// Decode one opcode word, exactly as `spec_decode` reads it.
pub fn decode(op: u16) -> (r: Option<Instr>)
    ensures
        r == spec_decode(op),
        match r {
            Some(i) => instr_wf(i),
            None => true,
        },
{
    proof {
        lemma_decode_wf(op);
    }
    let x = ((op >> 8) & 0xF) as u8;
    let y = ((op >> 4) & 0xF) as u8;
    let kk = (op & 0xFF) as u8;
    let nnn = op & 0xFFF;
    let n = (op & 0xF) as u8;
    if op == 0x00E0 {
        Some(Instr::Cls)
    } else if op == 0x00EE {
        Some(Instr::Ret)
    } else if op & 0xF000 == 0x1000 {
        Some(Instr::Jump { nnn })
    } else if op & 0xF000 == 0x2000 {
        Some(Instr::Call { nnn })
    } else if op & 0xF000 == 0x3000 {
        Some(Instr::SkipEqImm { x, kk })
    } else if op & 0xF000 == 0x4000 {
        Some(Instr::SkipNeImm { x, kk })
    } else if op & 0xF00F == 0x5000 {
        Some(Instr::SkipEqReg { x, y })
    } else if op & 0xF000 == 0x6000 {
        Some(Instr::LoadImm { x, kk })
    } else if op & 0xF000 == 0x7000 {
        Some(Instr::AddImm { x, kk })
    } else if op & 0xF00F == 0x8000 {
        Some(Instr::Move { x, y })
    } else if op & 0xF00F == 0x8001 {
        Some(Instr::Or { x, y })
    } else if op & 0xF00F == 0x8002 {
        Some(Instr::And { x, y })
    } else if op & 0xF00F == 0x8003 {
        Some(Instr::Xor { x, y })
    } else if op & 0xF00F == 0x8004 {
        Some(Instr::Add { x, y })
    } else if op & 0xF00F == 0x8005 {
        Some(Instr::Sub { x, y })
    } else if op & 0xF00F == 0x8006 {
        Some(Instr::Shr { x })
    } else if op & 0xF00F == 0x8007 {
        Some(Instr::SubN { x, y })
    } else if op & 0xF00F == 0x800E {
        Some(Instr::Shl { x })
    } else if op & 0xF00F == 0x9000 {
        Some(Instr::SkipNeReg { x, y })
    } else if op & 0xF000 == 0xA000 {
        Some(Instr::LoadIndex { nnn })
    } else if op & 0xF000 == 0xB000 {
        Some(Instr::JumpV0 { nnn })
    } else if op & 0xF000 == 0xC000 {
        Some(Instr::Random { x, kk })
    } else if op & 0xF000 == 0xD000 {
        Some(Instr::Draw { x, y, n })
    } else if op & 0xF0FF == 0xE09E {
        Some(Instr::SkipKey { x })
    } else if op & 0xF0FF == 0xE0A1 {
        Some(Instr::SkipNoKey { x })
    } else if op & 0xF0FF == 0xF007 {
        Some(Instr::ReadDelay { x })
    } else if op & 0xF0FF == 0xF00A {
        Some(Instr::WaitKey { x })
    } else if op & 0xF0FF == 0xF015 {
        Some(Instr::SetDelay { x })
    } else if op & 0xF0FF == 0xF018 {
        Some(Instr::SetSound { x })
    } else if op & 0xF0FF == 0xF01E {
        Some(Instr::AddIndex { x })
    } else if op & 0xF0FF == 0xF029 {
        Some(Instr::FontIndex { x })
    } else if op & 0xF0FF == 0xF033 {
        Some(Instr::Bcd { x })
    } else if op & 0xF0FF == 0xF055 {
        Some(Instr::StoreRegs { x })
    } else if op & 0xF0FF == 0xF065 {
        Some(Instr::LoadRegs { x })
    } else {
        None
    }
}

} // verus!
