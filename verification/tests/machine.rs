//! Whole-machine scenarios: boot, loading, frames, waits and fatal stops.

use chip8::cpu::Cpu;
use chip8::semantics::{ExecError, LoadError, StepOutcome};

#[test]
fn boot_state() {
    let cpu = Cpu::new();
    assert_eq!(cpu.pc(), 0x200);
    assert_eq!(cpu.index(), 0);
    assert_eq!(cpu.delay_timer(), 0);
    assert_eq!(cpu.sound_timer(), 0);
    assert_eq!(cpu.stack_depth(), 0);
    assert!(!cpu.is_waiting());
    for i in 0..16 {
        assert_eq!(cpu.register(i), 0);
    }
    for y in 0..32 {
        for x in 0..64 {
            assert!(!cpu.pixel(x, y));
        }
    }
}

#[test]
fn font_in_memory() {
    let cpu = Cpu::new();
    assert_eq!(cpu.ram_byte(0), 0xF0);
    assert_eq!(cpu.ram_byte(4), 0xF0);
    assert_eq!(cpu.ram_byte(5), 0x20);
    assert_eq!(cpu.ram_byte(79), 0x80);
    assert_eq!(cpu.ram_byte(80), 0);
    assert_eq!(cpu.ram_byte(0x200), 0);
}

#[test]
fn load_places_program_at_0x200() {
    let mut cpu = Cpu::new();
    let rom = vec![0x60, 0x2A, 0x12, 0x02];
    assert!(cpu.load(&rom).is_ok());
    assert_eq!(cpu.ram_byte(0x200), 0x60);
    assert_eq!(cpu.ram_byte(0x201), 0x2A);
    assert_eq!(cpu.ram_byte(0x202), 0x12);
    assert_eq!(cpu.ram_byte(0x203), 0x02);
    assert_eq!(cpu.ram_byte(0x204), 0);
    assert_eq!(cpu.ram_byte(0x1FF), 0);
}

#[test]
fn load_rejects_oversized_rom() {
    let mut cpu = Cpu::new();
    let rom = vec![0xAA; 3585];
    assert_eq!(cpu.load(&rom), Err(LoadError::TooLarge));
    // rejected before anything ran or was copied
    assert_eq!(cpu.pc(), 0x200);
    assert_eq!(cpu.ram_byte(0x200), 0);
}

#[test]
fn load_accepts_rom_filling_memory() {
    let mut cpu = Cpu::new();
    let rom = vec![0xBB; 3584];
    assert!(cpu.load(&rom).is_ok());
    assert_eq!(cpu.ram_byte(0xFFF), 0xBB);
}

#[test]
fn rom_add_then_spin() {
    // V0 = 5; V0 += 3; then jump-to-self: V0 settles at 8 forever.
    let mut cpu = Cpu::new();
    let rom = vec![0x60, 0x05, 0x70, 0x03, 0x12, 0x04];
    assert!(cpu.load(&rom).is_ok());
    assert_eq!(cpu.step(0), Ok(StepOutcome::Executed));
    assert_eq!(cpu.register(0), 5);
    assert_eq!(cpu.step(0), Ok(StepOutcome::Executed));
    assert_eq!(cpu.register(0), 8);
    for _ in 0..10 {
        assert!(cpu.execute_one_batch(16).is_ok());
        assert_eq!(cpu.register(0), 8);
        assert_eq!(cpu.pc(), 0x204);
    }
}

#[test]
fn rom_clear_draw_clear_leaves_screen_blank() {
    // clear; I = 0; draw glyph 0 at (0, 0); clear again.
    let mut cpu = Cpu::new();
    let rom = vec![0x00, 0xE0, 0xA0, 0x00, 0xD0, 0x05, 0x00, 0xE0];
    assert!(cpu.load(&rom).is_ok());
    assert_eq!(cpu.step(0), Ok(StepOutcome::Executed));
    assert_eq!(cpu.step(0), Ok(StepOutcome::Executed));
    assert_eq!(cpu.step(0), Ok(StepOutcome::Executed));
    // glyph 0 starts with row 0xF0: pixels 0..=3 of row 0 are on
    assert!(cpu.pixel(0, 0));
    assert!(cpu.pixel(3, 0));
    assert!(!cpu.pixel(4, 0));
    assert_eq!(cpu.step(0), Ok(StepOutcome::Executed));
    for y in 0..32 {
        for x in 0..64 {
            assert!(!cpu.pixel(x, y));
        }
    }
}

#[test]
fn wait_for_key_parks_and_resumes() {
    let mut cpu = Cpu::new();
    let rom = vec![0xF3, 0x0A, 0x12, 0x02];
    assert!(cpu.load(&rom).is_ok());
    assert_eq!(cpu.step(0), Ok(StepOutcome::Executed));
    assert!(cpu.is_waiting());
    assert_eq!(cpu.step(0), Ok(StepOutcome::Waiting));
    assert_eq!(cpu.step(0), Ok(StepOutcome::Waiting));
    cpu.key_down(0xB);
    assert_eq!(cpu.step(0), Ok(StepOutcome::Executed));
    assert!(!cpu.is_waiting());
    assert_eq!(cpu.register(3), 0xB);
    assert_eq!(cpu.pc(), 0x202);
}

#[test]
fn wait_for_key_ignores_stale_press() {
    let mut cpu = Cpu::new();
    let rom = vec![0xF0, 0x0A, 0x12, 0x02];
    assert!(cpu.load(&rom).is_ok());
    // a key pressed before the wait began must not satisfy it
    cpu.key_down(0x5);
    assert_eq!(cpu.step(0), Ok(StepOutcome::Executed));
    assert!(cpu.is_waiting());
    assert_eq!(cpu.step(0), Ok(StepOutcome::Waiting));
    cpu.key_down(0x9);
    assert_eq!(cpu.step(0), Ok(StepOutcome::Executed));
    assert_eq!(cpu.register(0), 0x9);
}

#[test]
fn timers_count_down_and_clamp() {
    let mut cpu = Cpu::new();
    let rom = vec![0x60, 0x03, 0xF0, 0x15, 0xF0, 0x18];
    assert!(cpu.load(&rom).is_ok());
    for _ in 0..3 {
        assert_eq!(cpu.step(0), Ok(StepOutcome::Executed));
    }
    assert_eq!(cpu.delay_timer(), 3);
    assert_eq!(cpu.sound_timer(), 3);
    assert!(cpu.sound_active());
    cpu.tick_timers();
    assert_eq!(cpu.delay_timer(), 2);
    cpu.tick_timers();
    cpu.tick_timers();
    assert_eq!(cpu.delay_timer(), 0);
    assert_eq!(cpu.sound_timer(), 0);
    assert!(!cpu.sound_active());
    for _ in 0..5 {
        cpu.tick_timers();
        assert_eq!(cpu.delay_timer(), 0);
        assert_eq!(cpu.sound_timer(), 0);
    }
}

#[test]
fn call_and_return_round_trip() {
    let mut cpu = Cpu::new();
    // 0x200: call 0x204; 0x202: spin; 0x204: return
    let rom = vec![0x22, 0x04, 0x12, 0x02, 0x00, 0xEE];
    assert!(cpu.load(&rom).is_ok());
    assert_eq!(cpu.step(0), Ok(StepOutcome::Executed));
    assert_eq!(cpu.pc(), 0x204);
    assert_eq!(cpu.stack_depth(), 1);
    assert_eq!(cpu.step(0), Ok(StepOutcome::Executed));
    assert_eq!(cpu.pc(), 0x202);
    assert_eq!(cpu.stack_depth(), 0);
}

#[test]
fn nested_calls_up_to_capacity_then_overflow() {
    let mut cpu = Cpu::new();
    for depth in 1..=16 {
        assert_eq!(cpu.execute_instruction(0x2200, 0), Ok(StepOutcome::Executed));
        assert_eq!(cpu.stack_depth(), depth);
    }
    assert_eq!(cpu.execute_instruction(0x2200, 0), Err(ExecError::StackOverflow));
    assert_eq!(cpu.stack_depth(), 16);
}

#[test]
fn return_on_empty_stack_underflows() {
    let mut cpu = Cpu::new();
    assert_eq!(cpu.execute_instruction(0x00EE, 0), Err(ExecError::StackUnderflow));
    assert_eq!(cpu.pc(), 0x200);
}

#[test]
fn fetch_past_memory_end_is_out_of_bounds() {
    let mut cpu = Cpu::new();
    assert_eq!(cpu.execute_instruction(0x1FFF, 0), Ok(StepOutcome::Executed));
    assert_eq!(cpu.pc(), 0xFFF);
    assert_eq!(cpu.step(0), Err(ExecError::OutOfBounds));
    assert_eq!(cpu.pc(), 0xFFF);
}

#[test]
fn batch_stops_at_fatal_error() {
    let mut cpu = Cpu::new();
    let rom = vec![0x00, 0xEE];
    assert!(cpu.load(&rom).is_ok());
    assert_eq!(cpu.execute_one_batch(16), Err(ExecError::StackUnderflow));
    assert_eq!(cpu.pc(), 0x200);
}

#[test]
fn batch_draws_random_bytes() {
    // Cxkk with mask 0x0F leaves at most the low nibble, whatever was drawn.
    let mut cpu = Cpu::new();
    let rom = vec![0xC0, 0x0F, 0x12, 0x02];
    assert!(cpu.load(&rom).is_ok());
    assert!(cpu.execute_one_batch(16).is_ok());
    assert!(cpu.register(0) < 16);
    assert_eq!(cpu.pc(), 0x202);
}
