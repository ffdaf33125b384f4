use chip8_core::emu::Emu;
use chip8_core::emu::EmuError;
use chip8_core::emu::MAX_ROM_SIZE;
use chip8_core::emu::SCREEN_WIDTH;

fn machine_with(rom: &[u8]) -> Emu {
    let mut e = Emu::new();
    e.load(rom).unwrap();
    e
}

#[test]
fn new_machine_initial_state() {
    let e = Emu::new();
    assert_eq!(e.programm_counter, 0x200);
    assert_eq!(e.i_register, 0);
    assert_eq!(e.stack_pointer, 0);
    assert_eq!(e.delay_timer, 0);
    assert_eq!(e.sound_timer, 0);
    assert!(!e.is_paused);
    assert!(e.registers.iter().all(|&v| v == 0));
    assert!(e.get_display().iter().all(|&p| !p));
    // Font glyph table at the bottom of memory: glyph 0 starts with 0xF0,
    // glyph F ends with 0x80, and the byte after the table is zero.
    assert_eq!(e.ram[0], 0xF0);
    assert_eq!(e.ram[79], 0x80);
    assert_eq!(e.ram[80], 0);
}

#[test]
fn nop_advances_pc() {
    let mut e = Emu::new();
    let r = e.tick();
    assert_eq!(r, Ok(false));
    assert_eq!(e.programm_counter, 0x202);
}

#[test]
fn set_register_immediate() {
    // 63AB: V3 = 0xAB.
    let mut e = machine_with(&[0x63, 0xAB]);
    assert_eq!(e.tick(), Ok(false));
    assert_eq!(e.registers[3], 0xAB);
    assert_eq!(e.programm_counter, 0x202);
}

#[test]
fn add_immediate_wraps_without_flag() {
    // 7010: V0 += 0x10, wrapping, VF untouched.
    let mut e = machine_with(&[0x70, 0x10]);
    e.registers[0] = 250;
    e.registers[0xF] = 9;
    assert_eq!(e.tick(), Ok(false));
    assert_eq!(e.registers[0], 10);
    assert_eq!(e.registers[0xF], 9);
}

#[test]
fn add_register_sets_carry() {
    // 8014: V0 += V1 with carry in VF.
    let mut e = machine_with(&[0x80, 0x14]);
    e.registers[0] = 200;
    e.registers[1] = 100;
    assert_eq!(e.tick(), Ok(false));
    assert_eq!(e.registers[0], 44);
    assert_eq!(e.registers[0xF], 1);
}

#[test]
fn add_register_no_carry() {
    let mut e = machine_with(&[0x80, 0x14]);
    e.registers[0] = 10;
    e.registers[1] = 20;
    e.registers[0xF] = 1;
    assert_eq!(e.tick(), Ok(false));
    assert_eq!(e.registers[0], 30);
    assert_eq!(e.registers[0xF], 0);
}

#[test]
fn sub_register_borrows() {
    // 8015: V0 -= V1; VF = 0 exactly when V0 < V1.
    let mut e = machine_with(&[0x80, 0x15]);
    e.registers[0] = 5;
    e.registers[1] = 10;
    assert_eq!(e.tick(), Ok(false));
    assert_eq!(e.registers[0], 251);
    assert_eq!(e.registers[0xF], 0);
}

#[test]
fn sub_register_no_borrow() {
    let mut e = machine_with(&[0x80, 0x15]);
    e.registers[0] = 10;
    e.registers[1] = 5;
    assert_eq!(e.tick(), Ok(false));
    assert_eq!(e.registers[0], 5);
    assert_eq!(e.registers[0xF], 1);
}

#[test]
fn sub_reversed_register() {
    // 8017: V0 = V1 - V0.
    let mut e = machine_with(&[0x80, 0x17]);
    e.registers[0] = 5;
    e.registers[1] = 10;
    assert_eq!(e.tick(), Ok(false));
    assert_eq!(e.registers[0], 5);
    assert_eq!(e.registers[0xF], 1);
}

#[test]
fn bitwise_ops() {
    // 8011 OR, then 8232 AND, then 8453 XOR.
    let mut e = machine_with(&[0x80, 0x11, 0x82, 0x32, 0x84, 0x53]);
    e.registers[0] = 0b1010;
    e.registers[1] = 0b0110;
    e.registers[2] = 0b1100;
    e.registers[3] = 0b1010;
    e.registers[4] = 0b0111;
    e.registers[5] = 0b0101;
    assert_eq!(e.tick(), Ok(false));
    assert_eq!(e.registers[0], 0b1110);
    assert_eq!(e.tick(), Ok(false));
    assert_eq!(e.registers[2], 0b1000);
    assert_eq!(e.tick(), Ok(false));
    assert_eq!(e.registers[4], 0b0010);
}

#[test]
fn shift_right_keeps_lsb() {
    // 8016: V0 >>= 1, VF = old LSB.
    let mut e = machine_with(&[0x80, 0x16]);
    e.registers[0] = 5;
    assert_eq!(e.tick(), Ok(false));
    assert_eq!(e.registers[0], 2);
    assert_eq!(e.registers[0xF], 1);
}

#[test]
fn shift_left_keeps_msb() {
    // 801E: V0 <<= 1, VF = old MSB.
    let mut e = machine_with(&[0x80, 0x1E]);
    e.registers[0] = 0x81;
    assert_eq!(e.tick(), Ok(false));
    assert_eq!(e.registers[0], 0x02);
    assert_eq!(e.registers[0xF], 1);
}

#[test]
fn copy_register() {
    // 8010: V0 = V1.
    let mut e = machine_with(&[0x80, 0x10]);
    e.registers[1] = 42;
    assert_eq!(e.tick(), Ok(false));
    assert_eq!(e.registers[0], 42);
}

#[test]
fn skip_if_equal_immediate() {
    // 3007 skips when V0 == 7.
    let mut e = machine_with(&[0x30, 0x07]);
    e.registers[0] = 7;
    assert_eq!(e.tick(), Ok(false));
    assert_eq!(e.programm_counter, 0x204);

    let mut e2 = machine_with(&[0x30, 0x07]);
    e2.registers[0] = 8;
    assert_eq!(e2.tick(), Ok(false));
    assert_eq!(e2.programm_counter, 0x202);
}

#[test]
fn skip_if_unequal_immediate() {
    let mut e = machine_with(&[0x40, 0x07]);
    e.registers[0] = 8;
    assert_eq!(e.tick(), Ok(false));
    assert_eq!(e.programm_counter, 0x204);
}

#[test]
fn skip_on_register_compare() {
    // 5010 skips when V0 == V1; 9010 skips when V0 != V1.
    let mut e = machine_with(&[0x50, 0x10]);
    e.registers[0] = 3;
    e.registers[1] = 3;
    assert_eq!(e.tick(), Ok(false));
    assert_eq!(e.programm_counter, 0x204);

    let mut e2 = machine_with(&[0x90, 0x10]);
    e2.registers[0] = 3;
    e2.registers[1] = 4;
    assert_eq!(e2.tick(), Ok(false));
    assert_eq!(e2.programm_counter, 0x204);
}

#[test]
fn jump_and_offset_jump() {
    // 1234: PC = 0x234.
    let mut e = machine_with(&[0x12, 0x34]);
    assert_eq!(e.tick(), Ok(false));
    assert_eq!(e.programm_counter, 0x234);

    // B205 with V0 = 3: PC = 0x208.
    let mut e2 = machine_with(&[0xB2, 0x05]);
    e2.registers[0] = 3;
    assert_eq!(e2.tick(), Ok(false));
    assert_eq!(e2.programm_counter, 0x208);
}

#[test]
fn call_and_return() {
    // 2204 calls 0x204; 00EE at 0x204 returns to 0x202.
    let mut e = machine_with(&[0x22, 0x04, 0x00, 0x00, 0x00, 0xEE]);
    assert_eq!(e.tick(), Ok(false));
    assert_eq!(e.programm_counter, 0x204);
    assert_eq!(e.stack_pointer, 1);
    assert_eq!(e.stack[0], 0x202);
    assert_eq!(e.tick(), Ok(false));
    assert_eq!(e.programm_counter, 0x202);
    assert_eq!(e.stack_pointer, 0);
}

#[test]
fn return_on_empty_stack_underflows() {
    let mut e = machine_with(&[0x00, 0xEE]);
    assert_eq!(e.tick(), Err(EmuError::StackUnderflow));
    // The failing step leaves the machine untouched.
    assert_eq!(e.programm_counter, 0x200);
    assert_eq!(e.stack_pointer, 0);
}

#[test]
fn seventeenth_nested_call_overflows() {
    // 2200 at 0x200 calls 0x200 again, forever.
    let mut e = machine_with(&[0x22, 0x00]);
    for depth in 1..=16 {
        assert_eq!(e.tick(), Ok(false));
        assert_eq!(e.stack_pointer, depth);
    }
    assert_eq!(e.tick(), Err(EmuError::StackOverflow));
    assert_eq!(e.stack_pointer, 16);
    assert_eq!(e.programm_counter, 0x200);
}

#[test]
fn unknown_opcode_is_reported() {
    // 5xy1 is outside the instruction table.
    let mut e = machine_with(&[0x50, 0x01]);
    assert_eq!(e.tick(), Err(EmuError::UnimplementedOpcode(0x5001)));
    assert_eq!(e.programm_counter, 0x200);
}

#[test]
fn set_index_register() {
    let mut e = machine_with(&[0xA1, 0x23]);
    assert_eq!(e.tick(), Ok(false));
    assert_eq!(e.i_register, 0x123);
}

#[test]
fn random_byte_is_masked() {
    // C500 masks the random byte with 0, so V5 must become 0.
    let mut e = machine_with(&[0xC5, 0x00]);
    e.registers[5] = 77;
    assert_eq!(e.tick(), Ok(false));
    assert_eq!(e.registers[5], 0);

    // C30F keeps only the low nibble.
    let mut e2 = machine_with(&[0xC3, 0x0F]);
    assert_eq!(e2.tick(), Ok(false));
    assert!(e2.registers[3] < 16);
}

#[test]
fn clear_display_blanks_everything() {
    // Draw one row of the zero glyph, then clear.
    let mut e = machine_with(&[0xD0, 0x11, 0x00, 0xE0]);
    assert_eq!(e.tick(), Ok(true));
    assert!(e.get_display().iter().any(|&p| p));
    assert_eq!(e.tick(), Ok(false));
    assert!(e.get_display().iter().all(|&p| !p));
}

#[test]
fn draw_reports_framebuffer_change_and_collision() {
    // I stays 0, so the sprite is the zero glyph (0xF0 first row).
    // Drawing it twice at the same spot restores the blank display, and the
    // second draw collides with the pixels the first one set.
    let mut e = machine_with(&[0xD0, 0x11, 0xD0, 0x11]);
    assert_eq!(e.tick(), Ok(true));
    assert_eq!(e.registers[0xF], 0);
    assert!(e.get_display().iter().any(|&p| p));
    assert_eq!(e.tick(), Ok(true));
    assert_eq!(e.registers[0xF], 1);
    assert!(e.get_display().iter().all(|&p| !p));
}

#[test]
fn sprite_wraps_around_the_right_edge() {
    // I = 0x208 (a 0xFF sprite byte), V0 = 60, V1 = 0, draw one row.
    let mut e = machine_with(&[0xA2, 0x08, 0x60, 0x3C, 0x61, 0x00, 0xD0, 0x11, 0xFF]);
    assert_eq!(e.tick(), Ok(false));
    assert_eq!(e.tick(), Ok(false));
    assert_eq!(e.tick(), Ok(false));
    assert_eq!(e.tick(), Ok(true));
    let display = e.get_display();
    for col in [60usize, 61, 62, 63, 0, 1, 2, 3] {
        assert!(display[col], "column {} should wrap on", col);
    }
    for col in 4..60usize {
        assert!(!display[col], "column {} should stay off", col);
    }
    assert!(!display[SCREEN_WIDTH + 60]);
}

#[test]
fn keypad_skip_instructions() {
    // E09E skips when key V0 is pressed; E0A1 skips when it is not.
    let mut e = machine_with(&[0xE0, 0x9E]);
    e.registers[0] = 4;
    e.keypress(4, true);
    assert_eq!(e.tick(), Ok(false));
    assert_eq!(e.programm_counter, 0x204);

    let mut e2 = machine_with(&[0xE0, 0xA1]);
    e2.registers[0] = 4;
    assert_eq!(e2.tick(), Ok(false));
    assert_eq!(e2.programm_counter, 0x204);

    let mut e3 = machine_with(&[0xE0, 0x9E]);
    e3.registers[0] = 4;
    assert_eq!(e3.tick(), Ok(false));
    assert_eq!(e3.programm_counter, 0x202);
}

#[test]
fn wait_key_blocks_until_lowest_pressed_key() {
    // F50A: wait for a key into V5.
    let mut e = machine_with(&[0xF5, 0x0A]);
    for _ in 0..3 {
        assert_eq!(e.tick(), Ok(false));
        assert_eq!(e.programm_counter, 0x200);
    }
    assert_eq!(e.registers[5], 0);
    e.keypress(7, true);
    e.keypress(3, true);
    assert_eq!(e.tick(), Ok(false));
    assert_eq!(e.registers[5], 3);
    assert_eq!(e.programm_counter, 0x202);
}

#[test]
fn timer_transfer_instructions() {
    // F015: DT = V0; F107: V1 = DT; F218: ST = V2.
    let mut e = machine_with(&[0xF0, 0x15, 0xF1, 0x07, 0xF2, 0x18]);
    e.registers[0] = 42;
    e.registers[2] = 9;
    assert_eq!(e.tick(), Ok(false));
    assert_eq!(e.delay_timer, 42);
    assert_eq!(e.tick(), Ok(false));
    assert_eq!(e.registers[1], 42);
    assert_eq!(e.tick(), Ok(false));
    assert_eq!(e.sound_timer, 9);
}

#[test]
fn add_to_index_register() {
    // AFFF: I = 0xFFF; F01E: I += V0.
    let mut e = machine_with(&[0xAF, 0xFF, 0xF0, 0x1E]);
    e.registers[0] = 255;
    assert_eq!(e.tick(), Ok(false));
    assert_eq!(e.tick(), Ok(false));
    assert_eq!(e.i_register, 0x10FE);
}

#[test]
fn font_address_of_digit() {
    // F029: I = V0 * 5.
    let mut e = machine_with(&[0xF0, 0x29]);
    e.registers[0] = 0xA;
    assert_eq!(e.tick(), Ok(false));
    assert_eq!(e.i_register, 50);
}

#[test]
fn bcd_digits_stored() {
    // A300: I = 0x300; F033: decimal digits of V0.
    let mut e = machine_with(&[0xA3, 0x00, 0xF0, 0x33]);
    e.registers[0] = 234;
    assert_eq!(e.tick(), Ok(false));
    assert_eq!(e.tick(), Ok(false));
    assert_eq!(e.ram[0x300], 2);
    assert_eq!(e.ram[0x301], 3);
    assert_eq!(e.ram[0x302], 4);
}

#[test]
fn block_store_and_load() {
    // A300: I = 0x300; F255: store V0..V2; F465: load V0..V4.
    let mut e = machine_with(&[0xA3, 0x00, 0xF2, 0x55, 0xF4, 0x65]);
    e.registers[0] = 11;
    e.registers[1] = 22;
    e.registers[2] = 33;
    assert_eq!(e.tick(), Ok(false));
    assert_eq!(e.tick(), Ok(false));
    assert_eq!(e.ram[0x300], 11);
    assert_eq!(e.ram[0x301], 22);
    assert_eq!(e.ram[0x302], 33);
    assert_eq!(e.ram[0x303], 0);
    e.registers[0] = 99;
    e.registers[3] = 99;
    e.registers[4] = 99;
    assert_eq!(e.tick(), Ok(false));
    assert_eq!(e.registers[0], 11);
    assert_eq!(e.registers[1], 22);
    assert_eq!(e.registers[2], 33);
    assert_eq!(e.registers[3], 0);
    assert_eq!(e.registers[4], 0);
}

#[test]
fn sound_timer_beeps_once_at_one() {
    let mut e = Emu::new();
    e.sound_timer = 1;
    assert!(e.tick_timers());
    assert_eq!(e.sound_timer, 0);
    assert!(!e.tick_timers());
    assert_eq!(e.sound_timer, 0);
}

#[test]
fn timers_count_down_independently() {
    let mut e = Emu::new();
    e.delay_timer = 3;
    e.sound_timer = 2;
    assert!(!e.tick_timers());
    assert_eq!(e.delay_timer, 2);
    assert_eq!(e.sound_timer, 1);
    assert!(e.tick_timers());
    assert_eq!(e.delay_timer, 1);
    assert_eq!(e.sound_timer, 0);
    assert!(!e.tick_timers());
    assert_eq!(e.delay_timer, 0);
}

#[test]
fn pause_freezes_step_and_timers() {
    let mut e = machine_with(&[0x63, 0xAB]);
    e.delay_timer = 5;
    e.sound_timer = 1;
    e.is_paused = true;
    assert_eq!(e.tick(), Ok(false));
    assert_eq!(e.programm_counter, 0x200);
    assert_eq!(e.registers[3], 0);
    assert!(!e.tick_timers());
    assert_eq!(e.delay_timer, 5);
    assert_eq!(e.sound_timer, 1);
    e.is_paused = false;
    assert_eq!(e.tick(), Ok(false));
    assert_eq!(e.registers[3], 0xAB);
}

#[test]
fn rom_at_the_size_limit_loads() {
    let mut e = Emu::new();
    let rom = vec![0xAB; MAX_ROM_SIZE];
    assert_eq!(e.load(&rom), Ok(()));
    assert_eq!(e.ram[0x200], 0xAB);
    assert_eq!(e.ram[4095], 0xAB);
}

#[test]
fn oversized_rom_is_rejected_untouched() {
    let mut e = Emu::new();
    e.load(&[1, 2, 3]).unwrap();
    e.registers[0] = 7;
    let big = vec![0xCD; MAX_ROM_SIZE + 1];
    assert_eq!(e.load(&big), Err(EmuError::RomTooLarge));
    // Memory, program counter and registers are untouched.
    assert_eq!(e.ram[0x200], 1);
    assert_eq!(e.ram[0x201], 2);
    assert_eq!(e.ram[0x202], 3);
    assert_eq!(e.programm_counter, 0x200);
    assert_eq!(e.registers[0], 7);
}

#[test]
fn reset_restores_the_initial_condition() {
    let mut e = machine_with(&[0x63, 0xAB, 0xD0, 0x11]);
    e.tick().unwrap();
    e.tick().unwrap();
    e.keypress(2, true);
    e.delay_timer = 9;
    e.is_paused = true;
    e.reset();
    assert_eq!(e.programm_counter, 0x200);
    assert_eq!(e.ram[0x200], 0);
    assert_eq!(e.ram[0], 0xF0);
    assert!(e.registers.iter().all(|&v| v == 0));
    assert!(e.get_display().iter().all(|&p| !p));
    assert!(!e.pressed_keys[2]);
    assert_eq!(e.delay_timer, 0);
    assert!(!e.is_paused);
}

#[test]
fn end_to_end_three_steps() {
    // 6005: V0 = 5; 7003: V0 += 3; A000: I = 0.
    let mut e = machine_with(&[0x60, 0x05, 0x70, 0x03, 0xA0, 0x00]);
    for _ in 0..3 {
        e.tick().unwrap();
    }
    assert_eq!(e.registers[0], 8);
    assert_eq!(e.i_register, 0);
}

#[test]
fn can_tick_guards_the_step() {
    let e = Emu::new();
    assert!(e.can_tick());

    // D005 wants five sprite rows behind I = 0xFFF: out of memory.
    let mut e2 = machine_with(&[0xAF, 0xFF, 0xD0, 0x05]);
    assert!(e2.can_tick());
    e2.tick().unwrap();
    assert!(!e2.can_tick());

    // A paused machine can always step (to a no-op).
    let mut e3 = machine_with(&[0xD0, 0x05]);
    e3.i_register = 0xFFF;
    e3.is_paused = true;
    assert!(e3.can_tick());
}
