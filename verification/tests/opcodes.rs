use chip8::c8::Chip8;

fn no_keys() -> [bool; 16] {
    [false; 16]
}

fn machine_with(program: Vec<u8>) -> Chip8 {
    let mut c = Chip8::new();
    c.load_program(&program).expect("image fits");
    c
}

fn step(c: &mut Chip8) {
    c.fde_loop(&no_keys()).expect("cycle should succeed");
}

fn run(c: &mut Chip8, cycles: usize) {
    for _ in 0..cycles {
        step(c);
    }
}

#[test]
fn jp_sets_pc() {
    let mut c = machine_with(vec![0x13, 0x45]);
    step(&mut c);
    assert_eq!(c.pc, 0x345);
}

#[test]
fn jp_v0_adds_register_to_address() {
    let mut c = machine_with(vec![0x60, 0x10, 0xB3, 0x00]);
    run(&mut c, 2);
    assert_eq!(c.pc, 0x310);
}

#[test]
fn se_byte_skips_when_equal() {
    // V0 = 5; skip over the V1 load; then V2 = 2
    let mut c = machine_with(vec![0x60, 0x05, 0x30, 0x05, 0x61, 0x01, 0x62, 0x02]);
    run(&mut c, 3);
    assert_eq!(c.v[1], 0);
    assert_eq!(c.v[2], 2);
}

#[test]
fn se_byte_falls_through_when_unequal() {
    let mut c = machine_with(vec![0x60, 0x05, 0x30, 0x06, 0x61, 0x01]);
    run(&mut c, 3);
    assert_eq!(c.v[1], 1);
}

#[test]
fn sne_byte_skips_when_unequal() {
    let mut c = machine_with(vec![0x60, 0x05, 0x40, 0x06, 0x61, 0x01, 0x62, 0x02]);
    run(&mut c, 3);
    assert_eq!(c.v[1], 0);
    assert_eq!(c.v[2], 2);
}

#[test]
fn se_registers_skips_when_equal() {
    let mut c = machine_with(vec![0x60, 0x07, 0x61, 0x07, 0x50, 0x10, 0x62, 0x01, 0x63, 0x03]);
    run(&mut c, 4);
    assert_eq!(c.v[2], 0);
    assert_eq!(c.v[3], 3);
}

#[test]
fn sne_registers_skips_when_unequal() {
    let mut c = machine_with(vec![0x60, 0x07, 0x61, 0x08, 0x90, 0x10, 0x62, 0x01, 0x63, 0x03]);
    run(&mut c, 4);
    assert_eq!(c.v[2], 0);
    assert_eq!(c.v[3], 3);
}

#[test]
fn add_byte_wraps_without_touching_flag() {
    let mut c = machine_with(vec![0x60, 0xFF, 0x70, 0x03]);
    run(&mut c, 2);
    assert_eq!(c.v[0], 0x02);
    assert_eq!(c.v[15], 0); // 7xkk never writes VF
}

#[test]
fn alu_ld_or_and_xor() {
    let mut c = machine_with(vec![
        0x60, 0x0C, 0x61, 0x0A, // V0 = 0b1100, V1 = 0b1010
        0x82, 0x10, // V2 = V1
        0x80, 0x11, // V0 |= V1
        0x63, 0x0C, 0x83, 0x12, // V3 = 0b1100; V3 &= V1
        0x64, 0x0C, 0x84, 0x13, // V4 = 0b1100; V4 ^= V1
    ]);
    run(&mut c, 8);
    assert_eq!(c.v[2], 0x0A);
    assert_eq!(c.v[0], 0x0E);
    assert_eq!(c.v[3], 0x08);
    assert_eq!(c.v[4], 0x06);
}

#[test]
fn shr_reads_vy_and_keeps_low_bit() {
    // quirk: the shift source is Vy, not Vx
    let mut c = machine_with(vec![0x61, 0x03, 0x80, 0x16]);
    run(&mut c, 2);
    assert_eq!(c.v[0], 0x01);
    assert_eq!(c.v[15], 1);
    assert_eq!(c.v[1], 0x03);
}

#[test]
fn shl_reads_vy_and_keeps_high_bit() {
    let mut c = machine_with(vec![0x61, 0x81, 0x80, 0x1E]);
    run(&mut c, 2);
    assert_eq!(c.v[0], 0x02);
    assert_eq!(c.v[15], 1);
    assert_eq!(c.v[1], 0x81);
}

#[test]
fn subn_stores_difference_into_vy() {
    // quirk: Vy - Vx lands in Vy
    let mut c = machine_with(vec![0x60, 0x03, 0x61, 0x05, 0x80, 0x17]);
    run(&mut c, 3);
    assert_eq!(c.v[1], 0x02);
    assert_eq!(c.v[0], 0x03);
    assert_eq!(c.v[15], 1);
}

#[test]
fn subn_with_borrow_clears_flag() {
    let mut c = machine_with(vec![0x60, 0x05, 0x61, 0x03, 0x80, 0x17]);
    run(&mut c, 3);
    assert_eq!(c.v[1], 0xFE);
    assert_eq!(c.v[15], 0);
}

#[test]
fn ld_i_sets_index() {
    let mut c = machine_with(vec![0xA1, 0x23]);
    step(&mut c);
    assert_eq!(c.i, 0x123);
}

#[test]
fn rnd_masked_by_zero_is_zero() {
    // whatever byte the generator returns, AND with 0 clears it
    let mut c = machine_with(vec![0x60, 0x55, 0xC0, 0x00]);
    run(&mut c, 2);
    assert_eq!(c.v[0], 0);
}

#[test]
fn rnd_respects_mask() {
    let mut c = machine_with(vec![0xC0, 0x0F, 0xC1, 0xF0]);
    run(&mut c, 2);
    assert!(c.v[0] <= 0x0F);
    assert_eq!(c.v[1] & 0x0F, 0);
}

#[test]
fn skp_skips_when_key_down() {
    let mut c = machine_with(vec![0x60, 0x04, 0xE0, 0x9E, 0x61, 0x01, 0x62, 0x02]);
    let mut keys = [false; 16];
    keys[4] = true;
    c.fde_loop(&keys).unwrap();
    c.fde_loop(&keys).unwrap();
    c.fde_loop(&keys).unwrap();
    assert_eq!(c.v[1], 0);
    assert_eq!(c.v[2], 2);
}

#[test]
fn sknp_skips_when_key_up() {
    let mut c = machine_with(vec![0x60, 0x04, 0xE0, 0xA1, 0x61, 0x01, 0x62, 0x02]);
    run(&mut c, 3);
    assert_eq!(c.v[1], 0);
    assert_eq!(c.v[2], 2);
}

#[test]
fn timer_set_and_get_through_registers() {
    let mut c = machine_with(vec![0x60, 0x30, 0xF0, 0x15, 0xF1, 0x07, 0x62, 0x07, 0xF2, 0x18]);
    run(&mut c, 5);
    assert_eq!(c.dt, 0x30);
    assert_eq!(c.v[1], 0x30);
    assert_eq!(c.st, 0x07);
}

#[test]
fn key_wait_blocks_until_a_key_arrives() {
    let mut c = machine_with(vec![0xF0, 0x0A]);
    // no key: the instruction re-executes
    c.fde_loop(&no_keys()).unwrap();
    assert_eq!(c.pc, 0x200);
    c.fde_loop(&no_keys()).unwrap();
    assert_eq!(c.pc, 0x200);
    // lowest pressed key lands in Vx
    let mut keys = [false; 16];
    keys[9] = true;
    keys[3] = true;
    c.fde_loop(&keys).unwrap();
    assert_eq!(c.v[0], 3);
    assert_eq!(c.pc, 0x202);
}

#[test]
fn add_i_flags_address_overflow() {
    let mut c = machine_with(vec![0x60, 0x05, 0xF0, 0x1E, 0xF0, 0x1E]);
    c.i = 0xFFA;
    run(&mut c, 2);
    assert_eq!(c.i, 0xFFF);
    assert_eq!(c.v[15], 0); // did not pass 0xFFF: flag untouched
    step(&mut c);
    assert_eq!(c.i, 0x1004);
    assert_eq!(c.v[15], 1);
}

#[test]
fn font_addressing_points_at_glyph() {
    let mut c = machine_with(vec![0x6A, 0x07, 0xFA, 0x29]);
    run(&mut c, 2);
    assert_eq!(c.i, 35);
    assert_eq!(&c.ram[35..40], &[0xF0, 0x10, 0x20, 0x40, 0x40]);
}

#[test]
fn bcd_stores_three_decimal_digits() {
    let mut c = machine_with(vec![0x60, 0x9F, 0xA3, 0x00, 0xF0, 0x33]);
    run(&mut c, 3);
    // 0x9F is 159
    assert_eq!(c.ram[0x300], 1);
    assert_eq!(c.ram[0x301], 5);
    assert_eq!(c.ram[0x302], 9);
    assert_eq!(c.i, 0x300); // I is not advanced
}
