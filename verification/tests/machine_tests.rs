use chip8::machine::Chip8;
use chip8::machine::Chip8Error;

/// A machine with `rom` loaded and ready to run.
fn boot(rom: Vec<u8>) -> Chip8 {
    let mut c = Chip8::new();
    c.load_rom(rom).unwrap();
    c
}

/// A rom that pads `program` out to `sprite_offset` and appends `sprite`.
fn rom_with_sprite(program: Vec<u8>, sprite_offset: usize, sprite: Vec<u8>) -> Vec<u8> {
    let mut rom = program;
    while rom.len() < sprite_offset {
        rom.push(0);
    }
    rom.extend(sprite);
    rom
}

#[test]
fn new_machine_starts_at_0x200() {
    let c = Chip8::new();
    assert_eq!(c.get_pc(), 0x200);
    assert_eq!(c.get_i(), 0);
    assert_eq!(c.get_delay_timer(), 0);
    assert_eq!(c.get_sound_timer(), 0);
    assert!(!c.is_paused());
    for x in 0..16 {
        assert_eq!(c.get_register(x), 0);
    }
    for y in 0..32 {
        for x in 0..64 {
            assert!(!c.is_pixel_set(x, y));
        }
    }
}

#[test]
fn font_is_written_at_startup() {
    let c = Chip8::new();
    // Glyph for digit 0.
    assert_eq!(c.read_memory(0), 0xF0);
    assert_eq!(c.read_memory(1), 0x90);
    assert_eq!(c.read_memory(2), 0x90);
    assert_eq!(c.read_memory(3), 0x90);
    assert_eq!(c.read_memory(4), 0xF0);
    // Glyph for digit F.
    assert_eq!(c.read_memory(75), 0xF0);
    assert_eq!(c.read_memory(79), 0x80);
    // Memory above the font is clear before loading.
    assert_eq!(c.read_memory(80), 0);
    assert_eq!(c.read_memory(0x200), 0);
}

#[test]
fn load_rom_copies_bytes_to_0x200() {
    let c = boot(vec![0xAB, 0xCD, 0xEF]);
    assert_eq!(c.read_memory(0x200), 0xAB);
    assert_eq!(c.read_memory(0x201), 0xCD);
    assert_eq!(c.read_memory(0x202), 0xEF);
    assert_eq!(c.read_memory(0x203), 0x00);
}

#[test]
fn load_rom_accepts_maximum_image() {
    let mut c = Chip8::new();
    assert_eq!(c.load_rom(vec![0x11; 3584]), Ok(()));
    assert_eq!(c.read_memory(0xFFF), 0x11);
}

#[test]
fn load_rom_rejects_oversized_image() {
    let mut c = Chip8::new();
    assert_eq!(c.load_rom(vec![0; 3585]), Err(Chip8Error::RomTooLarge));
    // The machine is untouched by a rejected load.
    assert_eq!(c.read_memory(0x200), 0);
    assert_eq!(c.get_pc(), 0x200);
}

#[test]
fn load_rom_accepts_empty_image() {
    let mut c = Chip8::new();
    assert_eq!(c.load_rom(Vec::new()), Ok(()));
    // All-zero memory decodes as a harmless no-op.
    assert_eq!(c.cycle(), Ok(()));
    assert_eq!(c.get_pc(), 0x202);
}

#[test]
fn fetch_is_big_endian() {
    // 0x61 then 0x23 must decode as 6123: V1 = 0x23.
    let mut c = boot(vec![0x61, 0x23]);
    c.cycle().unwrap();
    assert_eq!(c.get_register(1), 0x23);
}

#[test]
fn set_register_immediate() {
    let mut c = boot(vec![0x6A, 0x07]);
    c.cycle().unwrap();
    assert_eq!(c.get_register(0xA), 7);
    assert_eq!(c.get_pc(), 0x202);
}

#[test]
fn add_immediate_wraps_and_leaves_flag() {
    // VA = 0xFB, VF = preloaded 0; VA += 0x0A wraps to 5 without touching VF.
    let mut c = boot(vec![0x6A, 0xFB, 0x7A, 0x0A]);
    c.cycle().unwrap();
    c.cycle().unwrap();
    assert_eq!(c.get_register(0xA), 5);
    assert_eq!(c.get_register(0xF), 0);
}

#[test]
fn add_registers_sets_carry_on_overflow() {
    // V0 = 200, V1 = 100: 8014 leaves V0 = 44 and VF = 1.
    let mut c = boot(vec![0x60, 200, 0x61, 100, 0x80, 0x14]);
    for _ in 0..3 {
        c.cycle().unwrap();
    }
    assert_eq!(c.get_register(0), 44);
    assert_eq!(c.get_register(0xF), 1);
}

#[test]
fn add_registers_family_scenario() {
    // 6A07, 6B03, 8AB4: VA = 10, VF = 0.
    let mut c = boot(vec![0x6A, 0x07, 0x6B, 0x03, 0x8A, 0xB4]);
    for _ in 0..3 {
        c.cycle().unwrap();
    }
    assert_eq!(c.get_register(0xA), 10);
    assert_eq!(c.get_register(0xF), 0);
}

#[test]
fn sub_registers_wraps_when_borrowing() {
    // V0 = 1, V1 = 2: 8015 gives V0 = 0xFF and VF = 0.
    let mut c = boot(vec![0x60, 0x01, 0x61, 0x02, 0x80, 0x15]);
    for _ in 0..3 {
        c.cycle().unwrap();
    }
    assert_eq!(c.get_register(0), 0xFF);
    assert_eq!(c.get_register(0xF), 0);
}

#[test]
fn sub_registers_sets_flag_without_borrow() {
    let mut c = boot(vec![0x60, 0x05, 0x61, 0x03, 0x80, 0x15]);
    for _ in 0..3 {
        c.cycle().unwrap();
    }
    assert_eq!(c.get_register(0), 2);
    assert_eq!(c.get_register(0xF), 1);
}

#[test]
fn subn_registers_reverse_subtraction() {
    // V0 = 3, V1 = 10: 8017 gives V0 = 7 and VF = 1.
    let mut c = boot(vec![0x60, 0x03, 0x61, 0x0A, 0x80, 0x17]);
    for _ in 0..3 {
        c.cycle().unwrap();
    }
    assert_eq!(c.get_register(0), 7);
    assert_eq!(c.get_register(0xF), 1);
}

#[test]
fn copy_or_and_xor_registers() {
    let mut c = boot(vec![
        0x60, 0b1100, 0x61, 0b1010, // V0, V1
        0x82, 0x00, // V2 = V0
        0x80, 0x11, // V0 |= V1
        0x63, 0b1100, 0x83, 0x12, // V3 = 0b1100 & V1
        0x64, 0b1100, 0x84, 0x13, // V4 = 0b1100 ^ V1
    ]);
    for _ in 0..8 {
        c.cycle().unwrap();
    }
    assert_eq!(c.get_register(2), 0b1100);
    assert_eq!(c.get_register(0), 0b1110);
    assert_eq!(c.get_register(3), 0b1000);
    assert_eq!(c.get_register(4), 0b0110);
}

#[test]
fn shift_right_captures_low_bit() {
    let mut c = boot(vec![0x60, 0x05, 0x80, 0x06]);
    c.cycle().unwrap();
    c.cycle().unwrap();
    assert_eq!(c.get_register(0), 2);
    assert_eq!(c.get_register(0xF), 1);
}

#[test]
fn shift_left_captures_high_bit() {
    let mut c = boot(vec![0x60, 0x81, 0x80, 0x0E]);
    c.cycle().unwrap();
    c.cycle().unwrap();
    assert_eq!(c.get_register(0), 2);
    assert_eq!(c.get_register(0xF), 1);
}

#[test]
fn jump_sets_pc() {
    let mut c = boot(vec![0x13, 0x45]);
    c.cycle().unwrap();
    assert_eq!(c.get_pc(), 0x345);
}

#[test]
fn jump_with_offset_adds_v0() {
    let mut c = boot(vec![0x60, 0x10, 0xB3, 0x00]);
    c.cycle().unwrap();
    c.cycle().unwrap();
    assert_eq!(c.get_pc(), 0x310);
}

#[test]
fn skip_if_equal_immediate() {
    // V0 = 7; 3007 skips; 3008 does not.
    let mut c = boot(vec![0x60, 0x07, 0x30, 0x07]);
    c.cycle().unwrap();
    c.cycle().unwrap();
    assert_eq!(c.get_pc(), 0x206);
    let mut d = boot(vec![0x60, 0x07, 0x30, 0x08]);
    d.cycle().unwrap();
    d.cycle().unwrap();
    assert_eq!(d.get_pc(), 0x204);
}

#[test]
fn skip_if_not_equal_immediate() {
    let mut c = boot(vec![0x60, 0x07, 0x40, 0x08]);
    c.cycle().unwrap();
    c.cycle().unwrap();
    assert_eq!(c.get_pc(), 0x206);
    let mut d = boot(vec![0x60, 0x07, 0x40, 0x07]);
    d.cycle().unwrap();
    d.cycle().unwrap();
    assert_eq!(d.get_pc(), 0x204);
}

#[test]
fn skip_compares_register_values() {
    // V1 = V2 = 9 in different registers: 5120 skips on equal values.
    let mut c = boot(vec![0x61, 0x09, 0x62, 0x09, 0x51, 0x20]);
    for _ in 0..3 {
        c.cycle().unwrap();
    }
    assert_eq!(c.get_pc(), 0x208);
    // 9120 skips only on differing values.
    let mut d = boot(vec![0x61, 0x09, 0x62, 0x09, 0x91, 0x20]);
    for _ in 0..3 {
        d.cycle().unwrap();
    }
    assert_eq!(d.get_pc(), 0x206);
}

#[test]
fn call_and_return_restore_pc() {
    // 2300 at 0x200 calls 0x300; 00EE there returns to 0x202.
    let rom = rom_with_sprite(vec![0x23, 0x00], 0x100, vec![0x00, 0xEE]);
    let mut c = boot(rom);
    c.cycle().unwrap();
    assert_eq!(c.get_pc(), 0x300);
    c.cycle().unwrap();
    assert_eq!(c.get_pc(), 0x202);
}

#[test]
fn return_on_empty_stack_is_reported() {
    let mut c = boot(vec![0x00, 0xEE]);
    assert_eq!(c.cycle(), Err(Chip8Error::StackUnderflow));
    // A fault leaves the machine unchanged.
    assert_eq!(c.get_pc(), 0x200);
}

#[test]
fn call_on_full_stack_is_reported() {
    // Seventeen chained calls: sixteen succeed, the seventeenth overflows.
    let mut rom: Vec<u8> = Vec::new();
    for k in 0..17u16 {
        let target = 0x202 + 2 * k;
        rom.push(0x20 | (target >> 8) as u8);
        rom.push((target & 0xFF) as u8);
    }
    let mut c = boot(rom);
    for _ in 0..16 {
        c.cycle().unwrap();
    }
    assert_eq!(c.get_pc(), 0x220);
    assert_eq!(c.cycle(), Err(Chip8Error::StackOverflow));
    assert_eq!(c.get_pc(), 0x220);
}

#[test]
fn unrecognized_opcodes_are_no_ops() {
    // One undefined code from each sparse family.
    let mut c = boot(vec![0x00, 0x11, 0x80, 0x08, 0xE0, 0x00, 0xF0, 0xFF]);
    for _ in 0..4 {
        c.cycle().unwrap();
    }
    assert_eq!(c.get_pc(), 0x208);
    for x in 0..16 {
        assert_eq!(c.get_register(x), 0);
    }
}

#[test]
fn load_index_register() {
    let mut c = boot(vec![0xA1, 0x23]);
    c.cycle().unwrap();
    assert_eq!(c.get_i(), 0x123);
}

#[test]
fn add_to_index_wraps_to_12_bits() {
    let mut c = boot(vec![0xAF, 0xFF, 0x60, 0x02, 0xF0, 0x1E]);
    for _ in 0..3 {
        c.cycle().unwrap();
    }
    assert_eq!(c.get_i(), 1);
}

#[test]
fn random_byte_is_masked() {
    // Cxkk masks the random byte: a zero mask pins the result.
    let mut c = boot(vec![0xC5, 0x00, 0xC6, 0x0F]);
    c.cycle().unwrap();
    assert_eq!(c.get_register(5), 0);
    c.cycle().unwrap();
    assert!(c.get_register(6) <= 0x0F);
}

#[test]
fn timers_load_and_tick_down() {
    let mut c = boot(vec![0x60, 0x02, 0xF0, 0x15, 0x61, 0x01, 0xF1, 0x18]);
    for _ in 0..4 {
        c.cycle().unwrap();
    }
    assert_eq!(c.get_delay_timer(), 2);
    assert_eq!(c.get_sound_timer(), 1);
    c.update_timers();
    assert_eq!(c.get_delay_timer(), 1);
    assert_eq!(c.get_sound_timer(), 0);
    c.update_timers();
    c.update_timers();
    // Both timers saturate at zero.
    assert_eq!(c.get_delay_timer(), 0);
    assert_eq!(c.get_sound_timer(), 0);
}

#[test]
fn read_delay_timer_into_register() {
    let mut c = boot(vec![0x60, 0x09, 0xF0, 0x15, 0xF1, 0x07]);
    for _ in 0..3 {
        c.cycle().unwrap();
    }
    assert_eq!(c.get_register(1), 9);
}

#[test]
fn key_skip_respects_key_state() {
    let mut c = boot(vec![0x61, 0x04, 0xE1, 0x9E]);
    c.set_key(4, true);
    c.cycle().unwrap();
    c.cycle().unwrap();
    assert_eq!(c.get_pc(), 0x206);
    let mut d = boot(vec![0x61, 0x04, 0xE1, 0x9E, 0xE1, 0xA1]);
    d.cycle().unwrap();
    d.cycle().unwrap();
    assert_eq!(d.get_pc(), 0x204);
    // ExA1 skips exactly when the key is up.
    d.cycle().unwrap();
    assert_eq!(d.get_pc(), 0x208);
}

#[test]
fn key_wait_pauses_until_delivery() {
    let mut c = boot(vec![0xF3, 0x0A, 0x64, 0x01]);
    c.cycle().unwrap();
    assert!(c.is_paused());
    // A paused machine does not advance.
    c.cycle().unwrap();
    assert_eq!(c.get_pc(), 0x202);
    assert_eq!(c.get_register(4), 0);
    c.deliver_key(7);
    assert!(!c.is_paused());
    assert_eq!(c.get_register(3), 7);
    c.cycle().unwrap();
    assert_eq!(c.get_register(4), 1);
}

#[test]
fn deliver_key_without_pause_is_ignored() {
    let mut c = boot(vec![0x63, 0x05]);
    c.deliver_key(9);
    assert_eq!(c.get_register(3), 0);
    c.cycle().unwrap();
    assert_eq!(c.get_register(3), 5);
}

#[test]
fn font_glyph_base_address() {
    // Fx29 with Vx = 0xA points I at the glyph for hex digit A.
    let mut c = boot(vec![0x60, 0x0A, 0xF0, 0x29]);
    c.cycle().unwrap();
    c.cycle().unwrap();
    assert_eq!(c.get_i(), 50);
    let glyph: Vec<u8> = (50..55).map(|a| c.read_memory(a)).collect();
    assert_eq!(glyph, vec![0xF0, 0x90, 0xF0, 0x90, 0x90]);
}

#[test]
fn bcd_decomposition() {
    let mut c = boot(vec![0x60, 234, 0xA3, 0x00, 0xF0, 0x33]);
    for _ in 0..3 {
        c.cycle().unwrap();
    }
    assert_eq!(c.read_memory(0x300), 2);
    assert_eq!(c.read_memory(0x301), 3);
    assert_eq!(c.read_memory(0x302), 4);
}

#[test]
fn store_and_load_registers_round_trip() {
    // Store V0..V2, clobber them, load them back: values restored.
    let mut c = boot(vec![
        0x60, 0x05, 0x61, 0x07, 0x62, 0x09, // V0..V2
        0xA3, 0x00, // I = 0x300
        0xF2, 0x55, // store V0..V2
        0x60, 0x00, 0x61, 0x00, 0x62, 0x00, // clobber
        0xF2, 0x65, // load V0..V2
    ]);
    for _ in 0..9 {
        c.cycle().unwrap();
    }
    assert_eq!(c.get_register(0), 0x05);
    assert_eq!(c.get_register(1), 0x07);
    assert_eq!(c.get_register(2), 0x09);
    // The stored bytes really went through memory.
    assert_eq!(c.read_memory(0x300), 0x05);
    assert_eq!(c.read_memory(0x302), 0x09);
}

#[test]
fn draw_sets_pixels_from_sprite() {
    // Two-row sprite F0/90 drawn at the origin.
    let rom = rom_with_sprite(
        vec![0xA3, 0x00, 0x60, 0x00, 0x61, 0x00, 0xD0, 0x12],
        0x100,
        vec![0xF0, 0x90],
    );
    let mut c = boot(rom);
    for _ in 0..4 {
        c.cycle().unwrap();
    }
    for x in 0..4 {
        assert!(c.is_pixel_set(x, 0));
    }
    assert!(!c.is_pixel_set(4, 0));
    assert!(c.is_pixel_set(0, 1));
    assert!(!c.is_pixel_set(1, 1));
    assert!(!c.is_pixel_set(2, 1));
    assert!(c.is_pixel_set(3, 1));
    assert_eq!(c.get_register(0xF), 0);
}

#[test]
fn draw_wraps_out_of_range_coordinates() {
    // D015 at (70, 35): coordinates wrap to (6, 3) instead of indexing out
    // of range; only the first sprite row holds a bit.
    let rom = rom_with_sprite(
        vec![0xA3, 0x00, 0x60, 70, 0x61, 35, 0xD0, 0x15],
        0x100,
        vec![0x80, 0x00, 0x00, 0x00, 0x00],
    );
    let mut c = boot(rom);
    for _ in 0..4 {
        c.cycle().unwrap();
    }
    assert!(c.is_pixel_set(6, 3));
    assert_eq!(c.get_register(0xF), 0);
    let lit: usize = (0..32)
        .map(|y| (0..64).filter(|&x| c.is_pixel_set(x, y)).count())
        .sum();
    assert_eq!(lit, 1);
}

#[test]
fn draw_wraps_within_a_row() {
    // An 8-bit row drawn at column 60 wraps onto columns 60..64 and 0..4.
    let rom = rom_with_sprite(
        vec![0xA3, 0x00, 0x60, 60, 0x61, 0x00, 0xD0, 0x11],
        0x100,
        vec![0xFF],
    );
    let mut c = boot(rom);
    for _ in 0..4 {
        c.cycle().unwrap();
    }
    for x in [60, 61, 62, 63, 0, 1, 2, 3] {
        assert!(c.is_pixel_set(x, 0));
    }
    assert!(!c.is_pixel_set(4, 0));
    assert!(!c.is_pixel_set(59, 0));
}

#[test]
fn drawing_twice_collides_and_clears() {
    // The same sprite at the same spot: the second draw reports a collision
    // and restores an all-unset grid.
    let rom = rom_with_sprite(
        vec![0xA3, 0x00, 0x60, 0x00, 0x61, 0x00, 0xD0, 0x12, 0xD0, 0x12],
        0x100,
        vec![0xF0, 0x90],
    );
    let mut c = boot(rom);
    for _ in 0..4 {
        c.cycle().unwrap();
    }
    assert_eq!(c.get_register(0xF), 0);
    c.cycle().unwrap();
    assert_eq!(c.get_register(0xF), 1);
    for y in 0..32 {
        for x in 0..64 {
            assert!(!c.is_pixel_set(x, y));
        }
    }
}

#[test]
fn clear_screen_unsets_every_pixel() {
    // Draw a sprite, then 00E0: the whole grid is unset again.
    let rom = rom_with_sprite(
        vec![0xA3, 0x00, 0x60, 0x05, 0x61, 0x06, 0xD0, 0x12, 0x00, 0xE0],
        0x100,
        vec![0xFF, 0xFF],
    );
    let mut c = boot(rom);
    for _ in 0..4 {
        c.cycle().unwrap();
    }
    assert!(c.is_pixel_set(5, 6));
    c.cycle().unwrap();
    for y in 0..32 {
        for x in 0..64 {
            assert!(!c.is_pixel_set(x, y));
        }
    }
}

#[test]
fn key_skip_masks_register_to_4_bits() {
    // Ex9E reads only the low 4 bits of Vx: 0x14 means key 4.
    let mut c = boot(vec![0x61, 0x14, 0xE1, 0x9E]);
    c.set_key(4, true);
    c.cycle().unwrap();
    c.cycle().unwrap();
    assert_eq!(c.get_pc(), 0x206);
}
