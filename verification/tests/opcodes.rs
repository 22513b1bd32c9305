//! Per-opcode checks, driven through `execute_instruction` so every operand
//! and flag can be pinned to an exact expected value.

use chip8::cpu::Cpu;
use chip8::semantics::{ExecError, StepOutcome};

fn exec(cpu: &mut Cpu, opcode: u16) {
    assert_eq!(cpu.execute_instruction(opcode, 0), Ok(StepOutcome::Executed));
}

#[test]
fn load_and_add_immediates() {
    let mut cpu = Cpu::new();
    exec(&mut cpu, 0x6005);
    assert_eq!(cpu.register(0), 5);
    exec(&mut cpu, 0x7003);
    assert_eq!(cpu.register(0), 8);
    // 8-bit wraparound, and no flag side effect
    exec(&mut cpu, 0x61FF);
    exec(&mut cpu, 0x7102);
    assert_eq!(cpu.register(1), 1);
    assert_eq!(cpu.register(0xF), 0);
}

#[test]
fn bitwise_operations() {
    let mut cpu = Cpu::new();
    exec(&mut cpu, 0x60CC);
    exec(&mut cpu, 0x61AA);
    exec(&mut cpu, 0x8011);
    assert_eq!(cpu.register(0), 0xCC | 0xAA);
    exec(&mut cpu, 0x60CC);
    exec(&mut cpu, 0x8012);
    assert_eq!(cpu.register(0), 0xCC & 0xAA);
    exec(&mut cpu, 0x60CC);
    exec(&mut cpu, 0x8013);
    assert_eq!(cpu.register(0), 0xCC ^ 0xAA);
    exec(&mut cpu, 0x8010);
    assert_eq!(cpu.register(0), 0xAA);
}

#[test]
fn add_with_carry_flag() {
    let mut cpu = Cpu::new();
    exec(&mut cpu, 0x60C8); // V0 = 200
    exec(&mut cpu, 0x6164); // V1 = 100
    exec(&mut cpu, 0x8014);
    assert_eq!(cpu.register(0), 44); // 300 mod 256
    assert_eq!(cpu.register(0xF), 1);
    exec(&mut cpu, 0x6005);
    exec(&mut cpu, 0x6103);
    exec(&mut cpu, 0x8014);
    assert_eq!(cpu.register(0), 8);
    assert_eq!(cpu.register(0xF), 0);
}

#[test]
fn subtract_sets_no_borrow_flag() {
    let mut cpu = Cpu::new();
    exec(&mut cpu, 0x600A); // V0 = 10
    exec(&mut cpu, 0x6103); // V1 = 3
    exec(&mut cpu, 0x8015);
    assert_eq!(cpu.register(0), 7);
    assert_eq!(cpu.register(0xF), 1);
    exec(&mut cpu, 0x6003);
    exec(&mut cpu, 0x610A);
    exec(&mut cpu, 0x8015);
    assert_eq!(cpu.register(0), 249); // (3 - 10) mod 256
    assert_eq!(cpu.register(0xF), 0);
    // equal operands count as no borrow
    exec(&mut cpu, 0x6007);
    exec(&mut cpu, 0x6107);
    exec(&mut cpu, 0x8015);
    assert_eq!(cpu.register(0), 0);
    assert_eq!(cpu.register(0xF), 1);
}

#[test]
fn subtract_reversed() {
    let mut cpu = Cpu::new();
    exec(&mut cpu, 0x6003);
    exec(&mut cpu, 0x610A);
    exec(&mut cpu, 0x8017); // V0 = V1 - V0 = 7
    assert_eq!(cpu.register(0), 7);
    assert_eq!(cpu.register(0xF), 1);
    exec(&mut cpu, 0x600A);
    exec(&mut cpu, 0x6103);
    exec(&mut cpu, 0x8017); // V0 = 3 - 10
    assert_eq!(cpu.register(0), 249);
    assert_eq!(cpu.register(0xF), 0);
}

#[test]
fn shift_right_keeps_dropped_bit() {
    let mut cpu = Cpu::new();
    exec(&mut cpu, 0x6005);
    exec(&mut cpu, 0x8006);
    assert_eq!(cpu.register(0), 2);
    assert_eq!(cpu.register(0xF), 1);
    exec(&mut cpu, 0x6004);
    exec(&mut cpu, 0x8006);
    assert_eq!(cpu.register(0), 2);
    assert_eq!(cpu.register(0xF), 0);
}

#[test]
fn shift_left_keeps_dropped_bit() {
    let mut cpu = Cpu::new();
    exec(&mut cpu, 0x6081); // 0b1000_0001
    exec(&mut cpu, 0x800E);
    assert_eq!(cpu.register(0), 0x02);
    assert_eq!(cpu.register(0xF), 1);
    exec(&mut cpu, 0x6041); // 0b0100_0001
    exec(&mut cpu, 0x800E);
    assert_eq!(cpu.register(0), 0x82);
    assert_eq!(cpu.register(0xF), 0);
}

#[test]
fn skips_adjust_pc() {
    let mut cpu = Cpu::new();
    exec(&mut cpu, 0x6005);
    assert_eq!(cpu.pc(), 0x202);
    exec(&mut cpu, 0x3005); // equal: skip
    assert_eq!(cpu.pc(), 0x206);
    exec(&mut cpu, 0x3006); // not equal: no skip
    assert_eq!(cpu.pc(), 0x208);
    exec(&mut cpu, 0x4006); // not equal: skip
    assert_eq!(cpu.pc(), 0x20C);
    exec(&mut cpu, 0x6105);
    exec(&mut cpu, 0x5010); // V0 == V1: skip
    assert_eq!(cpu.pc(), 0x212);
    exec(&mut cpu, 0x9010); // V0 != V1 is false: no skip
    assert_eq!(cpu.pc(), 0x214);
    exec(&mut cpu, 0x6106);
    exec(&mut cpu, 0x9010); // now they differ: skip
    assert_eq!(cpu.pc(), 0x21A);
}

#[test]
fn jumps_set_pc() {
    let mut cpu = Cpu::new();
    exec(&mut cpu, 0x1ABC);
    assert_eq!(cpu.pc(), 0xABC);
    let mut cpu = Cpu::new();
    exec(&mut cpu, 0x6010);
    exec(&mut cpu, 0xB300); // jump to V0 + 0x300
    assert_eq!(cpu.pc(), 0x310);
}

#[test]
fn key_skips() {
    let mut cpu = Cpu::new();
    exec(&mut cpu, 0x6007);
    cpu.key_down(7);
    let pc = cpu.pc();
    exec(&mut cpu, 0xE09E); // pressed: skip
    assert_eq!(cpu.pc(), pc + 4);
    cpu.key_up(7);
    let pc = cpu.pc();
    exec(&mut cpu, 0xE09E); // released: no skip
    assert_eq!(cpu.pc(), pc + 2);
    let pc = cpu.pc();
    exec(&mut cpu, 0xE0A1); // not pressed: skip
    assert_eq!(cpu.pc(), pc + 4);
}

#[test]
fn random_is_masked() {
    let mut cpu = Cpu::new();
    assert_eq!(cpu.execute_instruction(0xC0FF, 0x5A), Ok(StepOutcome::Executed));
    assert_eq!(cpu.register(0), 0x5A);
    assert_eq!(cpu.execute_instruction(0xC10F, 0xAB), Ok(StepOutcome::Executed));
    assert_eq!(cpu.register(1), 0x0B);
    assert_eq!(cpu.execute_instruction(0xC200, 0xFF), Ok(StepOutcome::Executed));
    assert_eq!(cpu.register(2), 0);
}

#[test]
fn index_register_family() {
    let mut cpu = Cpu::new();
    exec(&mut cpu, 0xA123);
    assert_eq!(cpu.index(), 0x123);
    exec(&mut cpu, 0x6010);
    exec(&mut cpu, 0xF01E);
    assert_eq!(cpu.index(), 0x133);
    exec(&mut cpu, 0x6007);
    exec(&mut cpu, 0xF029); // font address of digit 7
    assert_eq!(cpu.index(), 35);
}

#[test]
fn add_index_out_of_bounds_is_fatal() {
    let mut cpu = Cpu::new();
    exec(&mut cpu, 0xAFFF);
    exec(&mut cpu, 0x6001);
    let pc = cpu.pc();
    assert_eq!(cpu.execute_instruction(0xF01E, 0), Err(ExecError::OutOfBounds));
    assert_eq!(cpu.index(), 0xFFF);
    assert_eq!(cpu.pc(), pc);
}

#[test]
fn delay_timer_read_write() {
    let mut cpu = Cpu::new();
    exec(&mut cpu, 0x602A);
    exec(&mut cpu, 0xF015);
    assert_eq!(cpu.delay_timer(), 42);
    exec(&mut cpu, 0xF107); // V1 = delay timer
    assert_eq!(cpu.register(1), 42);
}

#[test]
fn bcd_decomposition() {
    let mut cpu = Cpu::new();
    exec(&mut cpu, 0x60EA); // V0 = 234
    exec(&mut cpu, 0xA300);
    exec(&mut cpu, 0xF033);
    assert_eq!(cpu.ram_byte(0x300), 2);
    assert_eq!(cpu.ram_byte(0x301), 3);
    assert_eq!(cpu.ram_byte(0x302), 4);
    // and back through the register load
    exec(&mut cpu, 0xF265);
    assert_eq!(cpu.register(0), 2);
    assert_eq!(cpu.register(1), 3);
    assert_eq!(cpu.register(2), 4);
    assert_eq!(cpu.register(3), 0);
}

#[test]
fn store_and_load_registers() {
    let mut cpu = Cpu::new();
    exec(&mut cpu, 0x6011);
    exec(&mut cpu, 0x6122);
    exec(&mut cpu, 0x6233);
    exec(&mut cpu, 0xA400);
    exec(&mut cpu, 0xF155); // store V0..=V1
    assert_eq!(cpu.ram_byte(0x400), 0x11);
    assert_eq!(cpu.ram_byte(0x401), 0x22);
    assert_eq!(cpu.ram_byte(0x402), 0);
    exec(&mut cpu, 0x6000);
    exec(&mut cpu, 0x6100);
    exec(&mut cpu, 0xF165); // load V0..=V1 back
    assert_eq!(cpu.register(0), 0x11);
    assert_eq!(cpu.register(1), 0x22);
    assert_eq!(cpu.register(2), 0x33);
}

#[test]
fn store_registers_out_of_bounds_is_fatal() {
    let mut cpu = Cpu::new();
    exec(&mut cpu, 0xAFFF);
    assert_eq!(cpu.execute_instruction(0xF155, 0), Err(ExecError::OutOfBounds));
}

#[test]
fn undefined_opcodes_are_reported_and_skipped() {
    let mut cpu = Cpu::new();
    assert_eq!(
        cpu.execute_instruction(0x800F, 0),
        Ok(StepOutcome::InvalidOpcode(0x800F))
    );
    assert_eq!(cpu.pc(), 0x202);
    assert_eq!(
        cpu.execute_instruction(0x00FA, 0),
        Ok(StepOutcome::InvalidOpcode(0x00FA))
    );
    assert_eq!(
        cpu.execute_instruction(0xE0FF, 0),
        Ok(StepOutcome::InvalidOpcode(0xE0FF))
    );
    assert_eq!(
        cpu.execute_instruction(0xF0FF, 0),
        Ok(StepOutcome::InvalidOpcode(0xF0FF))
    );
    assert_eq!(cpu.pc(), 0x208);
}

#[test]
fn draw_sets_collision_flag_and_self_erases() {
    let mut cpu = Cpu::new();
    exec(&mut cpu, 0xA000); // I = font glyph 0
    exec(&mut cpu, 0xD005);
    assert_eq!(cpu.register(0xF), 0);
    assert!(cpu.pixel(0, 0));
    exec(&mut cpu, 0xD005); // same sprite again: every pixel toggles off
    assert_eq!(cpu.register(0xF), 1);
    for y in 0..32 {
        for x in 0..64 {
            assert!(!cpu.pixel(x, y));
        }
    }
}

#[test]
fn draw_wraps_at_edges() {
    let mut cpu = Cpu::new();
    exec(&mut cpu, 0x603E); // V0 = 62
    exec(&mut cpu, 0x611E); // V1 = 30
    exec(&mut cpu, 0xA000);
    exec(&mut cpu, 0xD015); // glyph 0 at (62, 30)
    // row 0 is 0xF0: columns 62, 63, 0, 1 of row 30
    assert!(cpu.pixel(62, 30));
    assert!(cpu.pixel(63, 30));
    assert!(cpu.pixel(0, 30));
    assert!(cpu.pixel(1, 30));
    assert!(!cpu.pixel(2, 30));
    // row 4 is 0xF0 again, landing on (30 + 4) mod 32 = 2
    assert!(cpu.pixel(62, 2));
    assert!(cpu.pixel(0, 2));
}

#[test]
fn draw_wraps_for_coordinates_near_255() {
    let mut cpu = Cpu::new();
    exec(&mut cpu, 0x60FF); // V0 = 255 -> column 63
    exec(&mut cpu, 0x61FF); // V1 = 255 -> row 31
    exec(&mut cpu, 0xA000);
    exec(&mut cpu, 0xD015);
    assert!(cpu.pixel(63, 31));
    assert!(cpu.pixel(0, 31));
    assert!(cpu.pixel(1, 31));
    assert!(cpu.pixel(2, 31));
    assert!(!cpu.pixel(3, 31));
}

#[test]
fn draw_reading_past_memory_end_is_fatal() {
    let mut cpu = Cpu::new();
    exec(&mut cpu, 0xAFFF);
    let pc = cpu.pc();
    assert_eq!(cpu.execute_instruction(0xD002, 0), Err(ExecError::OutOfBounds));
    assert_eq!(cpu.pc(), pc);
}
