//! Save and restore of the whole machine state.
use chip_8_emu::chip8::Chip8;
use chip_8_emu::snapshot::SnapshotError;

/// A machine with something in every field.
fn busy_machine() -> Chip8 {
    let mut chip: Chip8 = Default::default();
    chip.load_program(&[0x6A, 0x42, 0x22, 0x08]);
    chip.opcode = 0x1234;
    chip.i = 0x0ABC;
    chip.pc = 0x208;
    chip.delay_timer = 17;
    chip.sound_timer = 3;
    chip.stack_pointer = 2;
    chip.jump_stack[1] = 0x0202;
    chip.jump_stack[2] = 0x0206;
    for v in 0..16 {
        chip.v_registers[v] = (7 * v + 1) as u8;
    }
    chip.set_key(4, true);
    chip.set_key(11, true);
    for cell in 0..2048 {
        chip.display[cell] = (cell % 2) as u8;
    }
    chip
}

fn states_equal(a: &Chip8, b: &Chip8) -> bool {
    a.opcode == b.opcode && a.memory == b.memory && a.v_registers == b.v_registers && a.i == b.i
        && a.pc == b.pc && a.delay_timer == b.delay_timer && a.sound_timer == b.sound_timer
        && a.jump_stack == b.jump_stack && a.stack_pointer == b.stack_pointer
        && a.key_state == b.key_state && a.display.iter().eq(b.display.iter())
}

#[test]
fn snapshot_round_trip_is_bit_for_bit() {
    let chip = busy_machine();
    let blob = chip.save_state();
    let mut restored: Chip8 = Default::default();
    assert!(restored.load_state(&blob).is_ok());
    assert!(states_equal(&chip, &restored));
}

#[test]
fn snapshot_round_trip_of_fresh_machine() {
    let chip: Chip8 = Default::default();
    let blob = chip.save_state();
    let mut restored = busy_machine();
    assert!(restored.load_state(&blob).is_ok());
    assert!(states_equal(&chip, &restored));
}

#[test]
fn snapshot_has_fixed_length_and_version() {
    let blob = busy_machine().save_state();
    assert_eq!(blob.len(), 6219);
    assert_eq!(blob[0], 1);
}

#[test]
fn restore_rejects_wrong_length_untouched() {
    let mut chip = busy_machine();
    let pristine = busy_machine();
    let blob = chip.save_state();
    let truncated = &blob[..blob.len() - 1];
    assert!(matches!(chip.load_state(truncated), Err(SnapshotError::WrongLength)));
    assert!(matches!(chip.load_state(&[]), Err(SnapshotError::WrongLength)));
    assert!(states_equal(&chip, &pristine));
}

#[test]
fn restore_rejects_wrong_version_untouched() {
    let mut chip = busy_machine();
    let pristine = busy_machine();
    let mut blob = chip.save_state();
    blob[0] = 2;
    assert!(matches!(chip.load_state(&blob), Err(SnapshotError::WrongVersion)));
    assert!(states_equal(&chip, &pristine));
}

#[test]
fn restored_machine_runs_on() {
    // Save just before an instruction; the restored machine executes it
    // exactly as the saved machine does.
    let mut chip = busy_machine();
    chip.pc = 0x200;
    let blob = chip.save_state();
    chip.single_cycle();
    let mut restored: Chip8 = Default::default();
    restored.load_state(&blob).unwrap();
    restored.single_cycle();
    assert!(states_equal(&chip, &restored));
}
