use lcdmux::lcd::{Action, ConfigError, LineId};
use lcdmux::{Icon, LcdDriver};

fn driver_8bit() -> LcdDriver {
    let (driver, _init) = LcdDriver::new(16, 2, false, 255, 0, 1, 2, 3, 4, 5, 6, 7).unwrap();
    driver
}

fn driver_4bit() -> LcdDriver {
    let (driver, _init) = LcdDriver::new(16, 2, true, 255, 255, 255, 255, 255, 10, 11, 12, 13)
        .unwrap();
    driver
}

#[test]
fn wrong_unused_pin_count_is_rejected() {
    let r = LcdDriver::new(16, 2, false, 255, 255, 255, 2, 3, 4, 5, 6, 7);
    assert_eq!(r.unwrap_err(), ConfigError::InvalidDataLineCount);
    let r = LcdDriver::new(16, 2, true, 255, 255, 255, 255, 255, 255, 5, 6, 7);
    assert_eq!(r.unwrap_err(), ConfigError::InvalidDataLineCount);
}

#[test]
fn geometry_getters() {
    let d = driver_8bit();
    assert_eq!(d.get_cols(), 16);
    assert_eq!(d.get_rows(), 2);
}

#[test]
fn command_transmits_all_eight_bits() {
    let d = driver_8bit();
    let acts = d.command(0x41);
    // Register-select low, one level per data line, then the enable pulse.
    assert_eq!(acts[0], Action::SetLine(LineId::Rs, 0));
    let bits = [1, 0, 0, 0, 0, 0, 1, 0];
    for (i, b) in bits.iter().enumerate() {
        assert_eq!(acts[1 + i], Action::SetLine(LineId::Data(i as u8), *b));
    }
    assert_eq!(
        &acts[9..],
        &[
            Action::SetLine(LineId::Enable, 0),
            Action::DelayMicros(10),
            Action::SetLine(LineId::Enable, 1),
            Action::DelayMicros(10),
            Action::SetLine(LineId::Enable, 0),
            Action::DelayMicros(100),
        ]
    );
    assert_eq!(acts.len(), 15);
}

#[test]
fn four_bit_mode_sends_high_nibble_first() {
    let d = driver_4bit();
    let acts = d.write(0x41);
    assert_eq!(acts[0], Action::SetLine(LineId::Rs, 1));
    // High nibble of 0x41 is 0x4: bits 0..4 are 0,0,1,0.
    let high = [0, 0, 1, 0];
    for (i, b) in high.iter().enumerate() {
        assert_eq!(acts[1 + i], Action::SetLine(LineId::Data(i as u8), *b));
    }
    // Low nibble 0x1: bits 1,0,0,0, after the first enable pulse.
    let low = [1, 0, 0, 0];
    for (i, b) in low.iter().enumerate() {
        assert_eq!(acts[11 + i], Action::SetLine(LineId::Data(i as u8), *b));
    }
    // rs + 2 * (4 line levels + 6 pulse steps)
    assert_eq!(acts.len(), 21);
}

#[test]
fn clear_and_home_block_for_execution_time() {
    let d = driver_8bit();
    let clear = d.clear();
    assert_eq!(clear[..clear.len() - 1], d.command(0x01)[..]);
    assert_eq!(clear[clear.len() - 1], Action::DelayMicros(2000));
    let home = d.home();
    assert_eq!(home[..home.len() - 1], d.command(0x02)[..]);
    assert_eq!(home[home.len() - 1], Action::DelayMicros(2000));
}

#[test]
fn set_cursor_addresses_rows() {
    let d = driver_8bit();
    // Row 0 at DDRAM 0, row 1 at 0x40.
    assert_eq!(d.set_cursor(0, 3), d.command(0x80 | 3));
    assert_eq!(d.set_cursor(1, 3), d.command(0x80 | 0x43));
}

#[test]
fn set_cursor_clamps_out_of_range_rows() {
    let d = driver_8bit();
    // Any row index past the offset table lands on its last entry.
    assert_eq!(d.set_cursor(4, 0), d.set_cursor(3, 0));
    assert_eq!(d.set_cursor(200, 0), d.set_cursor(3, 0));
    assert_ne!(d.set_cursor(200, 0), d.set_cursor(0, 0));
}

#[test]
fn set_cursor_clamps_only_against_offset_table() {
    // Even on a panel narrower than the offset table, rows address their
    // own table entries; only rows past the table clamp.
    let (d, _init) = LcdDriver::new(2, 2, false, 255, 0, 1, 2, 3, 4, 5, 6, 7).unwrap();
    // Rows 0..4 each address distinct offsets: 0, 0x40, 2, 0x42.
    assert_eq!(d.set_cursor(2, 0), d.command(0x80 | 2));
    assert_eq!(d.set_cursor(3, 0), d.command(0x80 | 0x42));
    assert_eq!(d.set_cursor(5, 0), d.set_cursor(3, 0));
    assert_ne!(d.set_cursor(5, 0), d.set_cursor(1, 0));
}

#[test]
fn display_control_masks_the_on_bit() {
    let mut d = driver_8bit();
    // Freshly constructed, the display-on bit is set.
    let on = d.display();
    assert_eq!(on, d.command(0x08 | 0x04));
    let off = d.no_display();
    assert_eq!(off, d.command(0x08));
    // `display` only masks the control byte, so once the bit is cleared it
    // stays cleared.
    let still_off = d.display();
    assert_eq!(still_off, d.command(0x08));
}

#[test]
fn print_transliterates_to_ascii() {
    let d = driver_8bit();
    // The accented text reaches the panel as its ASCII approximation.
    assert_eq!(d.print("café"), d.print("cafe"));
    assert_eq!(d.print("Æneid"), d.print("AEneid"));
    assert_ne!(d.print("cafe"), d.print("café au lait"));
}

#[test]
fn print_writes_each_byte() {
    let d = driver_8bit();
    let acts = d.print("ok");
    let mut expected = d.write(b'o');
    expected.extend(d.write(b'k'));
    assert_eq!(acts, expected);
}

#[test]
fn print_wrapped_jumps_to_second_row_after_16() {
    let d = driver_8bit();
    let acts = d.print_wrapped("abcdefghijklmnopqr");
    let mut expected = d.set_cursor(0, 0);
    for b in b"abcdefghijklmnop" {
        expected.extend(d.write(*b));
    }
    expected.extend(d.set_cursor(1, 0));
    for b in b"qr" {
        expected.extend(d.write(*b));
    }
    assert_eq!(acts, expected);
}

#[test]
fn create_char_masks_slot_and_writes_bitmap() {
    let d = driver_8bit();
    let bitmap = [1u8, 2, 3, 4, 5, 6, 7, 8];
    let acts = d.create_char(1, bitmap);
    let mut expected = d.command(0x40 | (1 << 3));
    for b in bitmap {
        expected.extend(d.write(b));
    }
    assert_eq!(acts, expected);
    // Slots are masked to the 8 CGRAM locations: 9 & 7 == 1.
    assert_eq!(d.create_char(9, bitmap), acts);
}

#[test]
fn init_sequence_commits_mode_and_clears() {
    let (d, init) = LcdDriver::new(16, 2, false, 255, 0, 1, 2, 3, 4, 5, 6, 7).unwrap();
    // Lines are driven low before anything else.
    assert_eq!(init[0], Action::SetLine(LineId::Rs, 0));
    assert_eq!(init[1], Action::SetLine(LineId::Enable, 0));
    // The clear command's 2000 us wait appears in the sequence.
    assert!(init.contains(&Action::DelayMicros(2000)));
    // The legacy reset spacing appears for the 8-line path too.
    assert!(init.contains(&Action::DelayMicros(4500)));
    assert_eq!(d.get_cols(), 16);
}

#[test]
fn four_bit_init_sends_legacy_reset_nibbles() {
    let (_, init) = LcdDriver::new(16, 2, true, 255, 255, 255, 255, 255, 10, 11, 12, 13).unwrap();
    // After the registers are driven low, the first reset nibble 0x3 goes
    // out: bits 1,1,0,0 on the four wired lines.
    let bits = [1, 1, 0, 0];
    for (i, b) in bits.iter().enumerate() {
        assert_eq!(init[2 + i], Action::SetLine(LineId::Data(i as u8), *b));
    }
    // The documented reset spacing follows each pulse.
    assert_eq!(init[2 + 10], Action::DelayMicros(4500));
}

#[test]
fn init_sequence_with_rw_line_drives_it_low() {
    let (_, init) = LcdDriver::new(16, 2, false, 9, 0, 1, 2, 3, 4, 5, 6, 7).unwrap();
    assert_eq!(init[2], Action::SetLine(LineId::Rw, 0));
}

#[test]
fn icon_slots_and_bitmaps() {
    assert_eq!(Icon::MAIL.index(), 0);
    assert_eq!(Icon::BELL.index(), 1);
    assert_eq!(Icon::PAUSE.index(), 6);
    assert_eq!(
        Icon::MAIL.char_data(),
        [0x00, 0x00, 0x00, 0x1F, 0x1B, 0x15, 0x11, 0x1F]
    );
    assert_eq!(
        Icon::PLAY.char_data(),
        [0x00, 0x02, 0x06, 0x0E, 0x1E, 0x0E, 0x06, 0x02]
    );
}
