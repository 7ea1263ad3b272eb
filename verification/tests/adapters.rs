//! The pieces around the engine: colors, rendering, timers and pacing.
use chip_8_emu::chip8::Chip8;
use chip_8_emu::timing::pacing;
use chip_8_emu::utils::Rgb;
use chip_8_emu::utils::hex_to_rgb;
use chip_8_emu::utils::render_texture_to_target;

#[test]
fn hex_to_rgb_splits_channels() {
    let c = hex_to_rgb(0x123456);
    assert_eq!((c.r, c.g, c.b), (0x12, 0x34, 0x56));
    let white = hex_to_rgb(0xFFFFFF);
    assert_eq!((white.r, white.g, white.b), (0xFF, 0xFF, 0xFF));
    let black = hex_to_rgb(0);
    assert_eq!((black.r, black.g, black.b), (0, 0, 0));
}

#[test]
fn render_maps_cells_to_rgba() {
    let mut chip: Chip8 = Default::default();
    chip.display[0] = 1;
    chip.display[100] = 1;
    let fg = Rgb { r: 10, g: 20, b: 30 };
    let bg = Rgb { r: 1, g: 2, b: 3 };
    let mut frame: Vec<u8> = vec![0; 8192];
    render_texture_to_target(&chip.display, &mut frame, &fg, &bg);
    assert_eq!(&frame[0..4], &[10, 20, 30, 0xFF]);
    assert_eq!(&frame[4..8], &[1, 2, 3, 0xFF]);
    assert_eq!(&frame[400..404], &[10, 20, 30, 0xFF]);
    assert_eq!(&frame[8188..8192], &[1, 2, 3, 0xFF]);
}

#[test]
fn render_treats_only_exact_one_as_lit() {
    let mut chip: Chip8 = Default::default();
    chip.display[5] = 7;
    let fg = Rgb { r: 255, g: 255, b: 255 };
    let bg = Rgb { r: 0, g: 0, b: 0 };
    let mut frame: Vec<u8> = vec![9; 8192];
    render_texture_to_target(&chip.display, &mut frame, &fg, &bg);
    assert_eq!(&frame[20..24], &[0, 0, 0, 0xFF]);
}

#[test]
fn timers_count_down_to_zero() {
    let mut chip: Chip8 = Default::default();
    chip.delay_timer = 2;
    chip.sound_timer = 1;
    assert!(chip.sound_active());
    chip.tick_timers();
    assert_eq!((chip.delay_timer, chip.sound_timer), (1, 0));
    assert!(!chip.sound_active());
    chip.tick_timers();
    assert_eq!((chip.delay_timer, chip.sound_timer), (0, 0));
    chip.tick_timers();
    assert_eq!((chip.delay_timer, chip.sound_timer), (0, 0));
}

#[test]
fn pacing_matches_rate() {
    assert_eq!(pacing(500), (2, 8));
    assert_eq!(pacing(1000), (1, 16));
    assert_eq!(pacing(60), (16, 1));
    assert_eq!(pacing(1), (1000, 0));
}

#[test]
fn fill_and_invert_display() {
    let mut chip: Chip8 = Default::default();
    chip.fill_display(1);
    assert!(chip.display.iter().all(|&cell| cell == 1));
    chip.invert_display();
    assert!(chip.display.iter().all(|&cell| cell == 0));
    chip.display[3] = 5;
    chip.invert_display();
    assert_eq!(chip.display[3], 0);
    assert_eq!(chip.display[4], 1);
}

#[test]
fn default_machine_has_font_and_start_state() {
    let chip: Chip8 = Default::default();
    assert_eq!(chip.pc, 0x200);
    assert_eq!(chip.stack_pointer, 0);
    assert_eq!(chip.memory[0], 0xF0); // first row of glyph 0
    assert_eq!(chip.memory[79], 0x80); // last row of glyph F
    assert!(chip.memory[80..].iter().all(|&b| b == 0));
    assert!(chip.v_registers.iter().all(|&v| v == 0));
    assert!(chip.display.iter().all(|&cell| cell == 0));
}

#[test]
fn load_program_truncates_and_zero_fills() {
    let mut chip: Chip8 = Default::default();
    chip.memory[0x300] = 0x77;
    chip.load_program(&[1, 2, 3]);
    assert_eq!(&chip.memory[0x200..0x203], &[1, 2, 3]);
    assert!(chip.memory[0x203..].iter().all(|&b| b == 0));
    // A second, shorter load clears what the first one wrote.
    let big: Vec<u8> = vec![0xEE; 5000];
    chip.load_program(&big);
    assert!(chip.memory[0x200..].iter().all(|&b| b == 0xEE));
    chip.load_program(&[9]);
    assert_eq!(chip.memory[0x200], 9);
    assert!(chip.memory[0x201..].iter().all(|&b| b == 0));
    // The font below 0x200 is untouched throughout.
    assert_eq!(chip.memory[0], 0xF0);
}

#[test]
fn set_key_records_presses_and_releases() {
    let mut chip: Chip8 = Default::default();
    chip.set_key(0, true);
    chip.set_key(15, true);
    assert_eq!(chip.key_state[0], 1);
    assert_eq!(chip.key_state[15], 1);
    chip.set_key(0, false);
    assert_eq!(chip.key_state[0], 0);
    assert_eq!(chip.key_state[15], 1);
}
