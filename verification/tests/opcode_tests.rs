use chip8::opcode::take_param_kk;
use chip8::opcode::take_param_n;
use chip8::opcode::take_param_nnn;
use chip8::opcode::take_param_x;
use chip8::opcode::take_param_y;
use chip8::opcode::Opcode;

#[test]
fn opcode_test_take_param_n() {
    assert_eq!(take_param_n(0x8C74), 0x04);
    assert_eq!(take_param_n(0x8B74), 0x04);
}

#[test]
fn opcode_test_take_param_nnn() {
    assert_eq!(take_param_nnn(0x8C74), 0x0C74);
    assert_eq!(take_param_nnn(0xAB12), 0x0B12);
}

#[test]
fn opcode_test_take_param_kk() {
    assert_eq!(take_param_kk(0x8C74), 0x74);
    assert_eq!(take_param_kk(0xAB12), 0x12);
}

#[test]
fn opcode_test_take_param_x() {
    assert_eq!(take_param_x(0x8C74), 0x0C);
    assert_eq!(take_param_x(0xAB12), 0x0B);
}

#[test]
fn opcode_test_take_param_y() {
    assert_eq!(take_param_y(0x8C74), 0x07);
    assert_eq!(take_param_y(0xAB12), 0x01);
}

#[test]
fn instruction_test_take_param_n() {
    assert_eq!(take_param_n(0x8C74), 0x04);
    assert_eq!(take_param_n(0x8B74), 0x04);
}

#[test]
fn instruction_test_take_param_nnn() {
    assert_eq!(take_param_nnn(0x8C74), 0x0C74);
    assert_eq!(take_param_nnn(0xAB12), 0x0B12);
}

#[test]
fn instruction_test_take_param_kk() {
    assert_eq!(take_param_kk(0x8C74), 0x74);
    assert_eq!(take_param_kk(0xAB12), 0x12);
}

#[test]
fn instruction_test_take_param_x() {
    assert_eq!(take_param_x(0x8C74), 0x0C);
    assert_eq!(take_param_x(0xAB12), 0x0B);
}

#[test]
fn instruction_test_take_param_y() {
    assert_eq!(take_param_y(0x8C74), 0x07);
    assert_eq!(take_param_y(0xAB12), 0x01);
}

#[test]
fn opcode_new_extracts_every_field() {
    let op = Opcode::new(0x8C74);
    assert_eq!(op.raw, 0x8C74);
    assert_eq!(op.x, 0x0C);
    assert_eq!(op.y, 0x07);
    assert_eq!(op.n, 0x04);
    assert_eq!(op.nnn, 0x0C74);
    assert_eq!(op.kk, 0x74);
}

#[test]
fn opcode_new_is_total_and_deterministic() {
    // Decoding is defined for every 16-bit value and twice gives the same
    // decomposition.
    for raw in [0x0000u16, 0x00E0, 0x1234, 0x8FFE, 0xD005, 0xFFFF] {
        let a = Opcode::new(raw);
        let b = Opcode::new(raw);
        assert_eq!(a, b);
    }
}
