use chip8::machine::add_carry;
use chip8::machine::shift_left_carry;
use chip8::machine::shift_right_carry;
use chip8::machine::subtract_carry;
use chip8::machine::Chip8Error;
use chip8::machine::Chip8Interpreter;
use chip8::machine::StepResult;

#[test]
fn test_cpu_fetch() {
    let mut cpu = Chip8Interpreter::new(false);
    cpu.write_mem(0x200, 0xAB);
    cpu.write_mem(0x201, 0xBC);
    assert_eq!(cpu.fetch(), 0xABBC);
    assert_eq!(cpu.pc(), 0x202);
}

#[test]
fn test_cpu_load() {
    let mut cpu = Chip8Interpreter::new(false);
    let rom: Vec<u8> = vec![0xAB, 0xBC];
    assert!(cpu.load_rom(&rom).is_ok());
    assert_eq!(cpu.fetch(), 0xABBC);
}

#[test]
fn test_shift_left() {
    let mut val = 0b1011_1111;
    assert_eq!(shift_left_carry(&mut val), 1);
    assert_eq!(val, 0b0111_1110);

    let mut val = 0b0011_1111;
    assert_eq!(shift_left_carry(&mut val), 0);
    assert_eq!(val, 0b0111_1110);
}

#[test]
fn test_shift_right() {
    let mut val = 0b1011_1111;
    assert_eq!(shift_right_carry(&mut val), 1);
    assert_eq!(val, 0b0101_1111);

    let mut val = 0b0011_1110;
    assert_eq!(shift_right_carry(&mut val), 0);
    assert_eq!(val, 0b0001_1111);
}

#[test]
fn test_add_carry() {
    assert_eq!(add_carry(0, 0), (0, 0));
    assert_eq!(add_carry(1, 1), (0, 2));
    assert_eq!(add_carry(5, 13), (0, 18));
    assert_eq!(add_carry(255, 1), (1, 0));
    assert_eq!(add_carry(255, 10), (1, 9));
    assert_eq!(add_carry(255, 255), (1, 254));
}

#[test]
fn test_subtract_carry() {
    assert_eq!(subtract_carry(0, 0), (0, 0));
    assert_eq!(subtract_carry(0, 1), (1, 255));
    assert_eq!(subtract_carry(10, 20), (1, 246));
}

#[test]
fn load_rom_rejects_oversized_image() {
    let mut cpu = Chip8Interpreter::new(false);
    let rom: Vec<u8> = vec![0; 4096 - 0x200 + 1];
    assert_eq!(cpu.load_rom(&rom), Err(Chip8Error::ImageTooLarge));
    // The machine was not mutated on the rejection path.
    assert_eq!(cpu.read_mem(0x200), 0);
    assert_eq!(cpu.pc(), 0x200);
    // The largest image that fits is accepted.
    let rom: Vec<u8> = vec![0x11; 4096 - 0x200];
    assert!(cpu.load_rom(&rom).is_ok());
    assert_eq!(cpu.read_mem(0x200), 0x11);
    assert_eq!(cpu.read_mem(0xFFF), 0x11);
}

#[test]
fn new_machine_is_initialized() {
    let cpu = Chip8Interpreter::new(false);
    assert_eq!(cpu.pc(), 0x200);
    assert_eq!(cpu.reg_i(), 0);
    assert_eq!(cpu.delay_timer(), 0);
    assert_eq!(cpu.sound_timer(), 0);
    for x in 0..16u8 {
        assert_eq!(cpu.reg_v(x), 0);
    }
    // The font table is preloaded: glyph '0' is the first five bytes.
    assert_eq!(cpu.read_mem(0), 0xF0);
    assert_eq!(cpu.read_mem(1), 0x90);
    assert_eq!(cpu.read_mem(4), 0xF0);
    // Glyph 'F' ends the table.
    assert_eq!(cpu.read_mem(79), 0x80);
    assert_eq!(cpu.read_mem(80), 0);
    for row in 0..32 {
        for col in 0..64 {
            assert!(!cpu.pixel(row, col));
        }
    }
}

#[test]
fn exec_reports_decode_failure_with_context() {
    let mut cpu = Chip8Interpreter::new(false);
    let rom: Vec<u8> = vec![0xFF, 0xFF];
    cpu.load_rom(&rom).unwrap();
    assert_eq!(
        cpu.exec(),
        Err(Chip8Error::DecodeFailure { word: 0xFFFF, pc: 0x202 })
    );
}

#[test]
fn exec_reports_stack_underflow_on_unmatched_return() {
    let mut cpu = Chip8Interpreter::new(false);
    let rom: Vec<u8> = vec![0x00, 0xEE];
    cpu.load_rom(&rom).unwrap();
    assert_eq!(cpu.exec(), Err(Chip8Error::StackUnderflow));
}

#[test]
fn exec_halts_on_zero_word() {
    let mut cpu = Chip8Interpreter::new(false);
    // A freshly loaded machine holds zeroes in the program region.
    assert_eq!(cpu.exec(), Ok(StepResult::Halted));
    assert_eq!(cpu.pc(), 0x202);
}

#[test]
fn call_and_return_round_trip() {
    let mut cpu = Chip8Interpreter::new(false);
    // 0x200: call 0x300; 0x300: return.
    let rom: Vec<u8> = vec![0x23, 0x00];
    cpu.load_rom(&rom).unwrap();
    cpu.write_mem(0x300, 0x00);
    cpu.write_mem(0x301, 0xEE);
    assert_eq!(cpu.exec(), Ok(StepResult::Running));
    assert_eq!(cpu.pc(), 0x300);
    assert_eq!(cpu.exec(), Ok(StepResult::Running));
    assert_eq!(cpu.pc(), 0x202);
}

#[test]
fn skip_instructions_compare_register_contents() {
    let mut cpu = Chip8Interpreter::new(false);
    // v[1] = 0x12, then skip-if-equal on the same value.
    let rom: Vec<u8> = vec![0x61, 0x12, 0x31, 0x12];
    cpu.load_rom(&rom).unwrap();
    cpu.exec().unwrap();
    assert_eq!(cpu.reg_v(1), 0x12);
    cpu.exec().unwrap();
    assert_eq!(cpu.pc(), 0x206);

    let mut cpu = Chip8Interpreter::new(false);
    // skip-if-not-equal with v[1] == 0: condition holds.
    let rom: Vec<u8> = vec![0x41, 0x12];
    cpu.load_rom(&rom).unwrap();
    cpu.exec().unwrap();
    assert_eq!(cpu.pc(), 0x204);

    let mut cpu = Chip8Interpreter::new(false);
    // v[1] = 7, v[2] = 7: skip-if-registers-equal fires, then
    // skip-if-registers-unequal does not.
    let rom: Vec<u8> = vec![0x61, 0x07, 0x62, 0x07, 0x51, 0x20, 0x00, 0x00, 0x91, 0x20];
    cpu.load_rom(&rom).unwrap();
    cpu.exec().unwrap();
    cpu.exec().unwrap();
    cpu.exec().unwrap();
    assert_eq!(cpu.pc(), 0x208);
    cpu.exec().unwrap();
    assert_eq!(cpu.pc(), 0x20A);
}

#[test]
fn add_instruction_wraps_and_sets_carry_flag() {
    let mut cpu = Chip8Interpreter::new(false);
    // v[1] = 250, v[2] = 10, v[1] += v[2] with carry.
    let rom: Vec<u8> = vec![0x61, 0xFA, 0x62, 0x0A, 0x81, 0x24];
    cpu.load_rom(&rom).unwrap();
    cpu.exec().unwrap();
    cpu.exec().unwrap();
    cpu.exec().unwrap();
    assert_eq!(cpu.reg_v(1), 4);
    assert_eq!(cpu.reg_v(0xF), 1);
}

#[test]
fn subtract_instructions_set_no_borrow_flag() {
    let mut cpu = Chip8Interpreter::new(false);
    // v[1] = 10, v[2] = 20; v[1] -= v[2] borrows, flag reads 0.
    let rom: Vec<u8> = vec![0x61, 0x0A, 0x62, 0x14, 0x81, 0x25];
    cpu.load_rom(&rom).unwrap();
    cpu.exec().unwrap();
    cpu.exec().unwrap();
    cpu.exec().unwrap();
    assert_eq!(cpu.reg_v(1), 246);
    assert_eq!(cpu.reg_v(0xF), 0);

    let mut cpu = Chip8Interpreter::new(false);
    // v[1] = 10, v[2] = 20; v[1] = v[2] - v[1] does not borrow, flag reads 1.
    let rom: Vec<u8> = vec![0x61, 0x0A, 0x62, 0x14, 0x81, 0x27];
    cpu.load_rom(&rom).unwrap();
    cpu.exec().unwrap();
    cpu.exec().unwrap();
    cpu.exec().unwrap();
    assert_eq!(cpu.reg_v(1), 10);
    assert_eq!(cpu.reg_v(0xF), 1);
}

#[test]
fn add_immediate_wraps_without_flag() {
    let mut cpu = Chip8Interpreter::new(false);
    // v[1] = 0xFF, v[F] = 9 (so we can see it stays), v[1] += 2 wraps.
    let rom: Vec<u8> = vec![0x61, 0xFF, 0x6F, 0x09, 0x71, 0x02];
    cpu.load_rom(&rom).unwrap();
    cpu.exec().unwrap();
    cpu.exec().unwrap();
    cpu.exec().unwrap();
    assert_eq!(cpu.reg_v(1), 1);
    assert_eq!(cpu.reg_v(0xF), 9);
}

#[test]
fn shift_instructions_follow_the_table() {
    // 8xy6 shifts right: low bit to the flag.
    let mut cpu = Chip8Interpreter::new(false);
    let rom: Vec<u8> = vec![0x61, 0xBF, 0x81, 0x26];
    cpu.load_rom(&rom).unwrap();
    cpu.exec().unwrap();
    cpu.exec().unwrap();
    assert_eq!(cpu.reg_v(1), 0b0101_1111);
    assert_eq!(cpu.reg_v(0xF), 1);

    // 8xyE shifts left: high bit to the flag.
    let mut cpu = Chip8Interpreter::new(false);
    let rom: Vec<u8> = vec![0x61, 0xBF, 0x81, 0x2E];
    cpu.load_rom(&rom).unwrap();
    cpu.exec().unwrap();
    cpu.exec().unwrap();
    assert_eq!(cpu.reg_v(1), 0b0111_1110);
    assert_eq!(cpu.reg_v(0xF), 1);
}

#[test]
fn legacy_shift_quirk_copies_the_second_operand_first() {
    // With the quirk on, 8xy6 first copies v[y] into v[x].
    let mut cpu = Chip8Interpreter::new(true);
    let rom: Vec<u8> = vec![0x61, 0xFF, 0x62, 0x04, 0x81, 0x26];
    cpu.load_rom(&rom).unwrap();
    cpu.exec().unwrap();
    cpu.exec().unwrap();
    cpu.exec().unwrap();
    assert_eq!(cpu.reg_v(1), 2);
    assert_eq!(cpu.reg_v(0xF), 0);

    // With the quirk off, the same program shifts v[x] itself.
    let mut cpu = Chip8Interpreter::new(false);
    let rom: Vec<u8> = vec![0x61, 0xFF, 0x62, 0x04, 0x81, 0x26];
    cpu.load_rom(&rom).unwrap();
    cpu.exec().unwrap();
    cpu.exec().unwrap();
    cpu.exec().unwrap();
    assert_eq!(cpu.reg_v(1), 0x7F);
    assert_eq!(cpu.reg_v(0xF), 1);
}

#[test]
fn jump_with_offset_adds_register_zero() {
    let mut cpu = Chip8Interpreter::new(false);
    // v[0] = 4, then pc = 0x300 + v[0].
    let rom: Vec<u8> = vec![0x60, 0x04, 0xB3, 0x00];
    cpu.load_rom(&rom).unwrap();
    cpu.exec().unwrap();
    cpu.exec().unwrap();
    assert_eq!(cpu.pc(), 0x304);
}

#[test]
fn random_and_with_zero_mask_yields_zero() {
    // Whatever byte the random source draws, AND with a zero mask is zero.
    let mut cpu = Chip8Interpreter::new(false);
    let rom: Vec<u8> = vec![0x61, 0xFF, 0xC1, 0x00];
    cpu.load_rom(&rom).unwrap();
    cpu.exec().unwrap();
    cpu.exec().unwrap();
    assert_eq!(cpu.reg_v(1), 0);
}

#[test]
fn random_and_stays_within_mask() {
    let mut cpu = Chip8Interpreter::new(false);
    let rom: Vec<u8> = vec![0xC1, 0x0F];
    cpu.load_rom(&rom).unwrap();
    cpu.exec().unwrap();
    assert_eq!(cpu.reg_v(1) & 0xF0, 0);
}

#[test]
fn clear_screen_turns_every_pixel_off() {
    let mut cpu = Chip8Interpreter::new(false);
    // Draw the '0' glyph, then clear the frame buffer.
    let rom: Vec<u8> = vec![0xA0, 0x00, 0xD0, 0x05, 0x00, 0xE0];
    cpu.load_rom(&rom).unwrap();
    cpu.exec().unwrap();
    cpu.exec().unwrap();
    assert!(cpu.pixel(0, 0));
    cpu.exec().unwrap();
    for row in 0..32 {
        for col in 0..64 {
            assert!(!cpu.pixel(row, col));
        }
    }
}

#[test]
fn end_to_end_draws_glyph_zero_at_origin() {
    // Two instructions: I = 0 (the '0' glyph in the font table), then draw 5
    // rows at (v[0], v[1]) = (0, 0).
    let mut cpu = Chip8Interpreter::new(false);
    let rom: Vec<u8> = vec![0xA0, 0x00, 0xD0, 0x05];
    cpu.load_rom(&rom).unwrap();
    assert_eq!(cpu.exec(), Ok(StepResult::Running));
    assert_eq!(cpu.reg_i(), 0);
    assert_eq!(cpu.exec(), Ok(StepResult::Running));
    // The canonical 5-row '0' glyph: 0xF0, 0x90, 0x90, 0x90, 0xF0.
    let glyph: [u8; 5] = [0xF0, 0x90, 0x90, 0x90, 0xF0];
    for row in 0..5 {
        for col in 0..8 {
            let expected = (glyph[row] >> (7 - col)) & 1 == 1;
            assert_eq!(cpu.pixel(row, col), expected);
        }
    }
    // No prior pixel was set, so no collision was reported.
    assert_eq!(cpu.reg_v(0xF), 0);
}
