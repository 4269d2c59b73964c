use chip8::c8::Chip8;

fn no_keys() -> [bool; 16] {
    [false; 16]
}

fn machine_with(program: Vec<u8>) -> Chip8 {
    let mut c = Chip8::new();
    c.load_program(&program).expect("image fits");
    c
}

fn step(c: &mut Chip8) {
    c.fde_loop(&no_keys()).expect("cycle should succeed");
}

fn run(c: &mut Chip8, cycles: usize) {
    for _ in 0..cycles {
        step(c);
    }
}

fn pixel(c: &Chip8, row: usize, col: usize) -> bool {
    c.get_display()[row * 64 + col]
}

#[test]
fn ld_constant_lands_in_register() {
    let mut c = machine_with(vec![0x6A, 0x2A, 0x6B, 0x00, 0x6C, 0xFF]);
    run(&mut c, 3);
    assert_eq!(c.v[0xA], 0x2A);
    assert_eq!(c.v[0xB], 0x00);
    assert_eq!(c.v[0xC], 0xFF);
}

#[test]
fn add_registers_sets_carry_on_wrap() {
    let mut c = machine_with(vec![0x60, 0xFF, 0x61, 0x02, 0x80, 0x14]);
    run(&mut c, 3);
    assert_eq!(c.v[0], 0x01);
    assert_eq!(c.v[15], 1);
}

#[test]
fn add_registers_clears_carry_without_wrap() {
    let mut c = machine_with(vec![0x60, 0x05, 0x61, 0x02, 0x80, 0x14]);
    run(&mut c, 3);
    assert_eq!(c.v[0], 0x07);
    assert_eq!(c.v[15], 0);
}

#[test]
fn sub_without_borrow_sets_flag() {
    let mut c = machine_with(vec![0x60, 0x05, 0x61, 0x03, 0x80, 0x15]);
    run(&mut c, 3);
    assert_eq!(c.v[0], 0x02);
    assert_eq!(c.v[15], 1);
}

#[test]
fn sub_with_borrow_clears_flag() {
    let mut c = machine_with(vec![0x60, 0x03, 0x61, 0x05, 0x80, 0x15]);
    run(&mut c, 3);
    assert_eq!(c.v[0], 0xFE);
    assert_eq!(c.v[15], 0);
}

#[test]
fn cls_leaves_an_all_false_grid() {
    let mut c = machine_with(vec![
        0x60, 0x0A, 0x61, 0x05, // position (10, 5)
        0xA2, 0x0C, // I = sprite
        0xD0, 0x12, // draw two rows
        0x00, 0xE0, // clear
        0x00, 0x00, //
        0xFF, 0x81, // sprite data
    ]);
    run(&mut c, 4);
    assert!(c.get_display().iter().any(|&p| p));
    step(&mut c); // CLS
    let d = c.get_display();
    assert_eq!(d.len(), 64 * 32);
    assert!(d.iter().all(|&p| !p));
}

#[test]
fn drawing_twice_restores_the_display() {
    let mut c = machine_with(vec![
        0x60, 0x0A, 0x61, 0x05, // position (10, 5)
        0xA2, 0x0C, // I = sprite
        0xD0, 0x12, // draw two rows
        0xD0, 0x12, // and draw them again
        0x00, 0x00, //
        0xFF, 0x81, // sprite data
    ]);
    run(&mut c, 3);
    let before: Vec<bool> = c.get_display().clone();
    step(&mut c); // first draw
    assert!(c.get_display().iter().any(|&p| p));
    step(&mut c); // second draw: XOR is its own inverse
    assert_eq!(c.get_display(), &before);
}

#[test]
fn collision_flag_reports_overlap() {
    let mut c = machine_with(vec![
        0x60, 0x0A, 0x61, 0x05, // position (10, 5)
        0xA2, 0x0C, // I = sprite
        0xD0, 0x12, // draw onto a clear region
        0xD0, 0x12, // draw onto itself
        0x00, 0x00, //
        0xFF, 0x81, // sprite data
    ]);
    run(&mut c, 4);
    assert_eq!(c.v[15], 0); // all destination cells were clear
    step(&mut c);
    assert_eq!(c.v[15], 1); // every set bit hit a lit cell
}

#[test]
fn sprite_rows_and_pixels_land_where_aimed() {
    let mut c = machine_with(vec![
        0x60, 0x0A, 0x61, 0x05, // position (10, 5)
        0xA2, 0x0C, // I = sprite
        0xD0, 0x12, // draw two rows
        0x00, 0x00, 0x00, 0x00, //
        0xFF, 0x81, // rows: 11111111 then 10000001
    ]);
    run(&mut c, 4);
    for j in 0..8 {
        assert!(pixel(&c, 5, 10 + j)); // full top row
    }
    assert!(pixel(&c, 6, 10));
    for j in 1..7 {
        assert!(!pixel(&c, 6, 10 + j)); // hollow middle
    }
    assert!(pixel(&c, 6, 17));
    assert!(!pixel(&c, 4, 10));
    assert!(!pixel(&c, 7, 10));
}

#[test]
fn sprite_clips_at_the_right_edge() {
    let mut c = machine_with(vec![
        0x60, 0x3C, 0x61, 0x00, // position (60, 0)
        0xA2, 0x0C, // I = sprite
        0xD0, 0x11, // draw one row
        0x00, 0x00, 0x00, 0x00, //
        0xFF, 0x00, // row: 11111111
    ]);
    run(&mut c, 4);
    for col in 60..64 {
        assert!(pixel(&c, 0, col)); // in-bounds part drawn
    }
    for col in 0..8 {
        assert!(!pixel(&c, 0, col)); // nothing wrapped to the left
    }
}

#[test]
fn sprite_clips_at_the_bottom_edge() {
    let mut c = machine_with(vec![
        0x60, 0x00, 0x61, 0x1F, // position (0, 31)
        0xA2, 0x0C, // I = sprite
        0xD0, 0x12, // draw two rows
        0x00, 0x00, 0x00, 0x00, //
        0xFF, 0xFF,
    ]);
    run(&mut c, 4);
    for col in 0..8 {
        assert!(pixel(&c, 31, col)); // last row drawn
    }
    for col in 0..8 {
        assert!(!pixel(&c, 0, col)); // nothing wrapped to the top
    }
}

#[test]
fn draw_coordinates_wrap_before_drawing() {
    // V0 = 64 wraps to column 0; V1 = 33 wraps to row 1
    let mut c = machine_with(vec![
        0x60, 0x40, 0x61, 0x21, //
        0xA2, 0x0C, //
        0xD0, 0x11, //
        0x00, 0x00, 0x00, 0x00, //
        0x80, 0x00, // single pixel
    ]);
    run(&mut c, 4);
    assert!(pixel(&c, 1, 0));
}

#[test]
fn call_then_ret_returns_past_the_call() {
    let mut c = machine_with(vec![
        0x22, 0x06, // 0x200: CALL 0x206
        0x6A, 0x99, // 0x202: runs after the return
        0x00, 0x00, //
        0x00, 0xEE, // 0x206: RET
    ]);
    step(&mut c);
    assert_eq!(c.pc, 0x206);
    assert_eq!(c.sp, 1);
    step(&mut c);
    assert_eq!(c.pc, 0x202); // right after the CALL
    assert_eq!(c.sp, 0);
    step(&mut c);
    assert_eq!(c.v[0xA], 0x99);
}

#[test]
fn store_then_load_reproduces_registers() {
    let mut c = machine_with(vec![
        0x60, 0x0B, 0x61, 0x16, 0x62, 0x21, // V0..V2
        0xA3, 0x00, // I = 0x300
        0xF2, 0x55, // store V0..V2
        0x60, 0x00, 0x61, 0x00, 0x62, 0x00, // wipe them
        0xF2, 0x65, // load them back
    ]);
    run(&mut c, 5);
    assert_eq!(&c.ram[0x300..0x303], &[0x0B, 0x16, 0x21]);
    assert_eq!(c.i, 0x300); // store does not advance I
    run(&mut c, 4);
    assert_eq!(c.v[0], 0x0B);
    assert_eq!(c.v[1], 0x16);
    assert_eq!(c.v[2], 0x21);
    assert_eq!(c.i, 0x300); // load does not advance I either
}

#[test]
fn tight_loop_runs_ten_thousand_cycles() {
    let mut c = machine_with(vec![
        0x6A, 0x2A, // 0x200: VA = 0x2A
        0x12, 0x02, // 0x202: jump to itself
    ]);
    step(&mut c);
    assert_eq!(c.v[0xA], 0x2A);
    for _ in 0..10_000 {
        assert_eq!(c.fde_loop(&no_keys()), Ok(()));
        assert_eq!(c.pc, 0x202); // never leaves the loop
    }
    assert_eq!(c.v[0xA], 0x2A);
}
