//! Instruction-level behavior of the interpreter, one scenario per test.
use chip_8_emu::chip8::Chip8;

/// A machine with the given program loaded at 0x200.
fn machine_with(program: &[u8]) -> Chip8 {
    let mut chip: Chip8 = Default::default();
    chip.load_program(program);
    chip
}

#[test]
fn load_register_sets_value() {
    let mut chip = machine_with(&[0x6A, 0x42]);
    chip.single_cycle();
    assert_eq!(chip.v_registers[0xA], 0x42);
    assert_eq!(chip.pc, 0x202);
}

#[test]
fn add_immediate_wraps_and_leaves_vf() {
    let mut chip = machine_with(&[0x73, 0x64]);
    chip.v_registers[3] = 200;
    chip.v_registers[0xF] = 0xAB;
    chip.single_cycle();
    assert_eq!(chip.v_registers[3], 44); // (200 + 100) mod 256
    assert_eq!(chip.v_registers[0xF], 0xAB);
}

#[test]
fn add_immediate_without_overflow() {
    let mut chip = machine_with(&[0x73, 0x14]);
    chip.v_registers[3] = 10;
    chip.single_cycle();
    assert_eq!(chip.v_registers[3], 30);
}

#[test]
fn add_registers_with_carry() {
    let mut chip = machine_with(&[0x81, 0x24]);
    chip.v_registers[1] = 200;
    chip.v_registers[2] = 100;
    chip.single_cycle();
    assert_eq!(chip.v_registers[0xF], 1);
    assert_eq!(chip.v_registers[1], 44);
}

#[test]
fn add_registers_without_carry() {
    let mut chip = machine_with(&[0x81, 0x24]);
    chip.v_registers[1] = 10;
    chip.v_registers[2] = 20;
    chip.single_cycle();
    assert_eq!(chip.v_registers[0xF], 0);
    assert_eq!(chip.v_registers[1], 30);
}

#[test]
fn bcd_writes_hundreds_tens_ones() {
    let mut chip = machine_with(&[0xF4, 0x33]);
    chip.v_registers[4] = 157;
    chip.i = 0x300;
    chip.single_cycle();
    assert_eq!(chip.memory[0x300], 1);
    assert_eq!(chip.memory[0x301], 5);
    assert_eq!(chip.memory[0x302], 7);
}

#[test]
fn draw_twice_restores_display_and_collides() {
    // Two identical one-row draws of the bit pattern 1010_0000 at (3, 4).
    let mut chip = machine_with(&[0xD1, 0x21, 0xD1, 0x21]);
    chip.v_registers[1] = 3;
    chip.v_registers[2] = 4;
    chip.memory[0x250] = 0xA0;
    chip.i = 0x250;
    let before: Vec<u8> = chip.display.to_vec();
    chip.single_cycle();
    assert_eq!(chip.display[4 * 64 + 3], 1);
    assert_eq!(chip.display[4 * 64 + 4], 0);
    assert_eq!(chip.display[4 * 64 + 5], 1);
    assert_eq!(chip.v_registers[0xF], 0);
    chip.single_cycle();
    assert_eq!(chip.display.to_vec(), before);
    assert_eq!(chip.v_registers[0xF], 1);
}

#[test]
fn draw_wraps_both_axes() {
    // One row drawn at (62, 31): columns wrap past 64, the row is the last.
    let mut chip = machine_with(&[0xD1, 0x21]);
    chip.v_registers[1] = 62;
    chip.v_registers[2] = 31;
    chip.memory[0x250] = 0xF0;
    chip.i = 0x250;
    chip.single_cycle();
    assert_eq!(chip.display[31 * 64 + 62], 1);
    assert_eq!(chip.display[31 * 64 + 63], 1);
    assert_eq!(chip.display[31 * 64], 1);
    assert_eq!(chip.display[31 * 64 + 1], 1);
    assert_eq!(chip.display[31 * 64 + 2], 0);
}

#[test]
fn clear_display_zeroes_all_cells() {
    let mut chip = machine_with(&[0x00, 0xE0]);
    chip.fill_display(1);
    chip.single_cycle();
    assert!(chip.display.iter().all(|&cell| cell == 0));
    assert_eq!(chip.display.len(), 2048);
}

#[test]
fn call_then_return_restores_pc() {
    // 2204: call 0x204; the target holds 00EE: return.
    let mut chip = machine_with(&[0x22, 0x04, 0x00, 0x00, 0x00, 0xEE]);
    chip.single_cycle();
    assert_eq!(chip.pc, 0x204);
    assert_eq!(chip.stack_pointer, 1);
    chip.single_cycle();
    assert_eq!(chip.pc, 0x202);
    assert_eq!(chip.stack_pointer, 0);
}

#[test]
fn skip_if_equal_immediate() {
    let mut chip = machine_with(&[0x35, 0x2A]);
    chip.v_registers[5] = 0x2A;
    chip.single_cycle();
    assert_eq!(chip.pc, 0x204);

    let mut chip = machine_with(&[0x35, 0x2A]);
    chip.v_registers[5] = 0x2B;
    chip.single_cycle();
    assert_eq!(chip.pc, 0x202);
}

#[test]
fn skip_if_unequal_immediate() {
    let mut chip = machine_with(&[0x45, 0x2A]);
    chip.v_registers[5] = 0x2B;
    chip.single_cycle();
    assert_eq!(chip.pc, 0x204);

    let mut chip = machine_with(&[0x45, 0x2A]);
    chip.v_registers[5] = 0x2A;
    chip.single_cycle();
    assert_eq!(chip.pc, 0x202);
}

#[test]
fn skip_if_registers_equal() {
    let mut chip = machine_with(&[0x51, 0x20]);
    chip.v_registers[1] = 7;
    chip.v_registers[2] = 7;
    chip.single_cycle();
    assert_eq!(chip.pc, 0x204);

    let mut chip = machine_with(&[0x51, 0x20]);
    chip.v_registers[1] = 7;
    chip.v_registers[2] = 8;
    chip.single_cycle();
    assert_eq!(chip.pc, 0x202);
}

#[test]
fn skip_if_registers_unequal() {
    let mut chip = machine_with(&[0x91, 0x20]);
    chip.v_registers[1] = 7;
    chip.v_registers[2] = 8;
    chip.single_cycle();
    assert_eq!(chip.pc, 0x204);

    let mut chip = machine_with(&[0x91, 0x20]);
    chip.v_registers[1] = 7;
    chip.v_registers[2] = 7;
    chip.single_cycle();
    assert_eq!(chip.pc, 0x202);
}

#[test]
fn scenario_load_point_draw_loop() {
    // 6005: V0 = 5; A000: I = 0; D001: one-row sprite at (V0, V0);
    // 1200: jump back to the start of the program.
    let mut chip = machine_with(&[0x60, 0x05, 0xA0, 0x00, 0xD0, 0x01, 0x12, 0x00]);
    chip.single_cycle();
    assert_eq!(chip.v_registers[0], 5);
    assert_eq!(chip.pc, 0x202);
    chip.single_cycle();
    assert_eq!(chip.i, 0);
    assert_eq!(chip.pc, 0x204);
    chip.single_cycle();
    // The glyph row at address 0 is 0xF0: four lit cells from (5, 5) on.
    for col in 0..4 {
        assert_eq!(chip.display[5 * 64 + 5 + col], 1);
    }
    assert_eq!(chip.display[5 * 64 + 9], 0);
    assert_eq!(chip.v_registers[0xF], 0);
    assert_eq!(chip.pc, 0x206);
    chip.single_cycle();
    assert_eq!(chip.pc, 0x200);
}

#[test]
fn copy_or_and_xor_registers() {
    let mut chip = machine_with(&[0x81, 0x20, 0x83, 0x41, 0x85, 0x62, 0x87, 0x83]);
    chip.v_registers[2] = 0x5A;
    chip.v_registers[3] = 0xF0;
    chip.v_registers[4] = 0x0F;
    chip.v_registers[5] = 0xCC;
    chip.v_registers[6] = 0xAA;
    chip.v_registers[7] = 0xFF;
    chip.v_registers[8] = 0x0F;
    chip.single_cycle();
    assert_eq!(chip.v_registers[1], 0x5A);
    chip.single_cycle();
    assert_eq!(chip.v_registers[3], 0xFF);
    chip.single_cycle();
    assert_eq!(chip.v_registers[5], 0x88);
    chip.single_cycle();
    assert_eq!(chip.v_registers[7], 0xF0);
}

#[test]
fn subtract_with_borrow_flags() {
    let mut chip = machine_with(&[0x81, 0x25]);
    chip.v_registers[1] = 30;
    chip.v_registers[2] = 10;
    chip.single_cycle();
    assert_eq!(chip.v_registers[0xF], 1);
    assert_eq!(chip.v_registers[1], 20);

    let mut chip = machine_with(&[0x81, 0x25]);
    chip.v_registers[1] = 10;
    chip.v_registers[2] = 30;
    chip.single_cycle();
    assert_eq!(chip.v_registers[0xF], 0);
    assert_eq!(chip.v_registers[1], 236); // (10 - 30) mod 256
}

#[test]
fn reversed_subtract_flags() {
    let mut chip = machine_with(&[0x81, 0x27]);
    chip.v_registers[1] = 10;
    chip.v_registers[2] = 30;
    chip.single_cycle();
    assert_eq!(chip.v_registers[0xF], 1);
    assert_eq!(chip.v_registers[1], 20); // VY - VX

    let mut chip = machine_with(&[0x81, 0x27]);
    chip.v_registers[1] = 30;
    chip.v_registers[2] = 10;
    chip.single_cycle();
    assert_eq!(chip.v_registers[0xF], 0);
    assert_eq!(chip.v_registers[1], 236); // (10 - 30) mod 256
}

#[test]
fn shifts_move_edge_bits_to_vf() {
    let mut chip = machine_with(&[0x81, 0x06]);
    chip.v_registers[1] = 0x05;
    chip.single_cycle();
    assert_eq!(chip.v_registers[0xF], 1);
    assert_eq!(chip.v_registers[1], 0x02);

    let mut chip = machine_with(&[0x81, 0x0E]);
    chip.v_registers[1] = 0x81;
    chip.single_cycle();
    assert_eq!(chip.v_registers[0xF], 1);
    assert_eq!(chip.v_registers[1], 0x02);
}

#[test]
fn jump_and_jump_with_offset() {
    let mut chip = machine_with(&[0x13, 0x45]);
    chip.single_cycle();
    assert_eq!(chip.pc, 0x345);

    let mut chip = machine_with(&[0xB3, 0x40]);
    chip.v_registers[0] = 5;
    chip.single_cycle();
    assert_eq!(chip.pc, 0x345);
}

#[test]
fn masked_random_with_zero_mask_is_zero() {
    let mut chip = machine_with(&[0xC3, 0x00]);
    chip.v_registers[3] = 0x77;
    chip.single_cycle();
    assert_eq!(chip.v_registers[3], 0);
}

#[test]
fn index_register_instructions() {
    let mut chip = machine_with(&[0xA1, 0x23, 0xF5, 0x1E, 0xF6, 0x29]);
    chip.v_registers[5] = 0x10;
    chip.v_registers[6] = 0x0A;
    chip.single_cycle();
    assert_eq!(chip.i, 0x123);
    chip.single_cycle();
    assert_eq!(chip.i, 0x133);
    chip.single_cycle();
    assert_eq!(chip.i, 50); // glyph A sits at 10 * 5
}

#[test]
fn store_and_load_registers_exclusive_of_x() {
    let mut chip = machine_with(&[0xF3, 0x55]);
    chip.v_registers[0] = 0x11;
    chip.v_registers[1] = 0x22;
    chip.v_registers[2] = 0x33;
    chip.v_registers[3] = 0x44;
    chip.i = 0x400;
    chip.memory[0x403] = 0xEE;
    chip.single_cycle();
    assert_eq!(chip.memory[0x400], 0x11);
    assert_eq!(chip.memory[0x401], 0x22);
    assert_eq!(chip.memory[0x402], 0x33);
    // V3 itself is not stored: the block stops short of register X.
    assert_eq!(chip.memory[0x403], 0xEE);

    let mut chip = machine_with(&[0xF3, 0x65]);
    chip.memory[0x400] = 0xAA;
    chip.memory[0x401] = 0xBB;
    chip.memory[0x402] = 0xCC;
    chip.memory[0x403] = 0xDD;
    chip.v_registers[3] = 0x99;
    chip.i = 0x400;
    chip.single_cycle();
    assert_eq!(chip.v_registers[0], 0xAA);
    assert_eq!(chip.v_registers[1], 0xBB);
    assert_eq!(chip.v_registers[2], 0xCC);
    assert_eq!(chip.v_registers[3], 0x99);
}

#[test]
fn key_skips() {
    let mut chip = machine_with(&[0xE5, 0x9E]);
    chip.v_registers[5] = 7;
    chip.set_key(7, true);
    chip.single_cycle();
    assert_eq!(chip.pc, 0x204);

    let mut chip = machine_with(&[0xE5, 0x9E]);
    chip.v_registers[5] = 7;
    chip.single_cycle();
    assert_eq!(chip.pc, 0x202);

    let mut chip = machine_with(&[0xE5, 0xA1]);
    chip.v_registers[5] = 7;
    chip.single_cycle();
    assert_eq!(chip.pc, 0x204);

    let mut chip = machine_with(&[0xE5, 0xA1]);
    chip.v_registers[5] = 7;
    chip.set_key(7, true);
    chip.single_cycle();
    assert_eq!(chip.pc, 0x202);
}

#[test]
fn wait_for_key_rewinds_until_pressed() {
    let mut chip = machine_with(&[0xF4, 0x0A]);
    chip.single_cycle();
    // No key is down: the program counter rewinds to re-run the wait.
    assert_eq!(chip.pc, 0x200);
    chip.set_key(9, true);
    chip.single_cycle();
    assert_eq!(chip.v_registers[4], 9);
    assert_eq!(chip.pc, 0x202);
}

#[test]
fn wait_for_key_takes_first_by_index() {
    let mut chip = machine_with(&[0xF4, 0x0A]);
    chip.set_key(0xC, true);
    chip.set_key(3, true);
    chip.single_cycle();
    assert_eq!(chip.v_registers[4], 3);
}

#[test]
fn timer_instructions() {
    let mut chip = machine_with(&[0xF2, 0x15, 0xF3, 0x18, 0xF4, 0x07]);
    chip.v_registers[2] = 42;
    chip.v_registers[3] = 9;
    chip.single_cycle();
    assert_eq!(chip.delay_timer, 42);
    chip.single_cycle();
    assert_eq!(chip.sound_timer, 9);
    chip.single_cycle();
    assert_eq!(chip.v_registers[4], 42);
}

#[test]
fn unknown_opcodes_are_no_ops() {
    // 0x0123 (machine-code call), 0x800F and 0xF0FF match no instruction.
    for program in [[0x01u8, 0x23], [0x81, 0x2F], [0xF5, 0xFF]] {
        let mut chip = machine_with(&program);
        let v_before = chip.v_registers;
        let i_before = chip.i;
        chip.single_cycle();
        assert_eq!(chip.pc, 0x202);
        assert_eq!(chip.v_registers, v_before);
        assert_eq!(chip.i, i_before);
    }
}

#[test]
fn call_on_full_stack_is_ignored() {
    let mut chip = machine_with(&[0x23, 0x00]);
    chip.stack_pointer = 15;
    chip.single_cycle();
    assert_eq!(chip.pc, 0x202);
    assert_eq!(chip.stack_pointer, 15);
}

#[test]
fn return_on_empty_stack_is_ignored() {
    let mut chip = machine_with(&[0x00, 0xEE]);
    chip.single_cycle();
    assert_eq!(chip.pc, 0x202);
    assert_eq!(chip.stack_pointer, 0);
}

#[test]
fn fifteen_nested_calls_fit() {
    // 15 call instructions in a chain, each to the next address.
    let mut program: Vec<u8> = Vec::new();
    for call in 0..15u16 {
        let target = 0x202 + call * 2;
        program.push(0x20 | (target >> 8) as u8);
        program.push(target as u8);
    }
    let mut chip = machine_with(&program);
    for _ in 0..15 {
        chip.single_cycle();
    }
    assert_eq!(chip.stack_pointer, 15);
    assert_eq!(chip.pc, 0x21E);
}
