use chip8::display::display;

#[test]
fn test_display() {
    let mut mem: Vec<u8> = vec![0; 4096];
    mem[0] = 0b11111000;
    mem[1] = 0;
    let mut fb: Vec<bool> = vec![true; 2048];
    // Five set bits drawn at (63, 31) wrap off both edges and turn lit
    // pixels off: a collision.
    assert_eq!(display(&mut fb, &mem, 0, 63, 31, 1), 1);
    // An all-zero sprite row flips nothing: no collision.
    assert_eq!(display(&mut fb, &mem, 1, 63, 31, 1), 0);
    assert_eq!(fb[31 * 64 + 63], false);
    assert_eq!(fb[31 * 64], false);
    assert_eq!(fb[31 * 64 + 1], false);
    assert_eq!(fb[31 * 64 + 2], false);
    assert_eq!(fb[31 * 64 + 3], false);
}

#[test]
fn drawing_twice_restores_the_frame_buffer() {
    let mut mem: Vec<u8> = vec![0; 4096];
    mem[100] = 0xA5;
    mem[101] = 0x3C;
    let mut fb: Vec<bool> = vec![true; 2048];
    // Every hit pixel starts on: the first draw collides, the second draw of
    // the identical sprite cancels it and reports no collision.
    assert_eq!(display(&mut fb, &mem, 100, 10, 20, 2), 1);
    assert_eq!(display(&mut fb, &mem, 100, 10, 20, 2), 0);
    assert!(fb.iter().all(|&p| p));
}

#[test]
fn sprite_wraps_around_both_edges() {
    let mut mem: Vec<u8> = vec![0; 4096];
    mem[0] = 0xFF;
    let mut fb: Vec<bool> = vec![false; 2048];
    // Width-8 sprite at column 63, row 31: bit 0 lands at (31, 63), bits
    // 1..8 wrap to columns 0..7 of row 31.
    assert_eq!(display(&mut fb, &mem, 0, 63, 31, 1), 0);
    assert!(fb[31 * 64 + 63]);
    for col in 0..7 {
        assert!(fb[31 * 64 + col]);
    }
    assert!(!fb[31 * 64 + 7 + 1]);

    // A second row would wrap from row 31 back to row 0.
    let mut fb: Vec<bool> = vec![false; 2048];
    mem[1] = 0x80;
    assert_eq!(display(&mut fb, &mem, 0, 0, 31, 2), 0);
    assert!(fb[31 * 64]);
    assert!(fb[0]);
}

#[test]
fn collision_is_reported_only_for_pixels_turned_off() {
    let mut mem: Vec<u8> = vec![0; 4096];
    mem[0] = 0x80;
    let mut fb: Vec<bool> = vec![false; 2048];
    // Drawing onto a dark pixel turns it on: no collision.
    assert_eq!(display(&mut fb, &mem, 0, 5, 6, 1), 0);
    assert!(fb[6 * 64 + 5]);
    // Drawing again turns it off: collision.
    assert_eq!(display(&mut fb, &mem, 0, 5, 6, 1), 1);
    assert!(!fb[6 * 64 + 5]);
}
