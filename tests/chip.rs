use chip8::{decode, Chip, ChipError, ExecState, StepOutcome, SCREEN_HEIGHT, SCREEN_WIDTH};

fn machine_with(program: &[u8]) -> Chip {
    let mut chip = Chip::new();
    chip.load_game(program).unwrap();
    chip
}

fn run(chip: &mut Chip, steps: usize) -> Vec<StepOutcome> {
    (0..steps).map(|_| chip.step(0)).collect()
}

#[test]
fn new_installs_font_and_starts_at_program() {
    let chip = Chip::new();
    assert_eq!(chip.pc(), 0x200);
    assert_eq!(chip.memory_at(0), 0xF0);
    assert_eq!(chip.memory_at(5), 0x20);
    assert_eq!(chip.memory_at(79), 0x80);
    assert_eq!(chip.memory_at(80), 0);
    assert_eq!(chip.memory_at(0x200), 0);
    assert_eq!(chip.stack_depth(), 0);
    assert_eq!(chip.state(), ExecState::Running);
    assert!(chip.display().iter().all(|&p| p == 0));
    assert_eq!(chip.display().len(), SCREEN_WIDTH * SCREEN_HEIGHT);
}

#[test]
fn decode_splits_fields() {
    let ins = decode(0xD12F);
    assert_eq!(ins.code, 0xD12F);
    assert_eq!(ins.family, 0xD);
    assert_eq!(ins.x, 1);
    assert_eq!(ins.y, 2);
    assert_eq!(ins.n, 0xF);
    assert_eq!(ins.nn, 0x2F);
    assert_eq!(ins.nnn, 0x12F);
}

#[test]
fn load_add_program_scenario() {
    let mut chip = machine_with(&[0x60, 0x05, 0x61, 0x03, 0x80, 0x14]);
    let outcomes = run(&mut chip, 3);
    assert_eq!(outcomes, vec![StepOutcome::Continue; 3]);
    assert_eq!(chip.register(0), 8);
    assert_eq!(chip.register(0xF), 0);
    assert_eq!(chip.pc(), 0x206);
}

#[test]
fn image_too_large_is_rejected_without_change() {
    let mut chip = Chip::new();
    let image = vec![0xAAu8; 4096 - 0x200 + 1];
    assert_eq!(chip.load_game(&image), Err(ChipError::ImageTooLarge));
    let fresh = Chip::new();
    for a in 0..4096 {
        assert_eq!(chip.memory_at(a), fresh.memory_at(a));
    }
}

#[test]
fn image_filling_memory_is_accepted() {
    let mut chip = Chip::new();
    let image = vec![0xAAu8; 4096 - 0x200];
    assert_eq!(chip.load_game(&image), Ok(()));
    assert_eq!(chip.memory_at(0x1FF), 0);
    assert_eq!(chip.memory_at(0x200), 0xAA);
    assert_eq!(chip.memory_at(4095), 0xAA);
}

#[test]
fn load_then_add_zero_keeps_value() {
    let mut chip = machine_with(&[0x6A, 0x42, 0x7A, 0x00]);
    run(&mut chip, 2);
    assert_eq!(chip.register(0xA), 0x42);
}

#[test]
fn add_immediate_wraps_without_flag() {
    let mut chip = machine_with(&[0x6F, 0x07, 0x62, 0xFF, 0x72, 0x03]);
    run(&mut chip, 3);
    assert_eq!(chip.register(2), 0x02);
    assert_eq!(chip.register(0xF), 0x07);
}

#[test]
fn add_registers_sets_carry() {
    let mut chip = machine_with(&[0x60, 0xFF, 0x61, 0x01, 0x80, 0x14]);
    run(&mut chip, 3);
    assert_eq!(chip.register(0), 0);
    assert_eq!(chip.register(0xF), 1);
}

#[test]
fn add_registers_at_255_has_no_carry() {
    let mut chip = machine_with(&[0x60, 0xFE, 0x61, 0x01, 0x80, 0x14]);
    run(&mut chip, 3);
    assert_eq!(chip.register(0), 0xFF);
    assert_eq!(chip.register(0xF), 0);
}

#[test]
fn subtract_with_borrow() {
    let mut chip = machine_with(&[0x60, 0x03, 0x61, 0x05, 0x80, 0x15]);
    run(&mut chip, 3);
    assert_eq!(chip.register(0), 254);
    assert_eq!(chip.register(0xF), 0);
}

#[test]
fn subtract_equal_values_has_no_borrow() {
    let mut chip = machine_with(&[0x60, 0x05, 0x61, 0x05, 0x80, 0x15]);
    run(&mut chip, 3);
    assert_eq!(chip.register(0), 0);
    assert_eq!(chip.register(0xF), 1);
}

#[test]
fn reverse_subtract() {
    let mut chip = machine_with(&[0x60, 0x05, 0x61, 0x03, 0x80, 0x17]);
    run(&mut chip, 3);
    assert_eq!(chip.register(0), 254);
    assert_eq!(chip.register(0xF), 0);
    let mut chip = machine_with(&[0x60, 0x03, 0x61, 0x05, 0x80, 0x17]);
    run(&mut chip, 3);
    assert_eq!(chip.register(0), 2);
    assert_eq!(chip.register(0xF), 1);
}

#[test]
fn flag_register_as_destination_keeps_result() {
    let mut chip = machine_with(&[0x6F, 0xFF, 0x61, 0x03, 0x8F, 0x14]);
    run(&mut chip, 3);
    assert_eq!(chip.register(0xF), 2);
}

#[test]
fn logic_operations() {
    let mut chip = machine_with(&[
        0x60, 0b1100, 0x61, 0b1010, 0x82, 0x00, 0x82, 0x11, 0x83, 0x00, 0x83, 0x12, 0x84, 0x00,
        0x84, 0x13, 0x85, 0x10,
    ]);
    run(&mut chip, 9);
    assert_eq!(chip.register(2), 0b1110);
    assert_eq!(chip.register(3), 0b1000);
    assert_eq!(chip.register(4), 0b0110);
    assert_eq!(chip.register(5), 0b1010);
}

#[test]
fn shifts_in_place() {
    let mut chip = machine_with(&[0x60, 0x81, 0x80, 0x16]);
    run(&mut chip, 2);
    assert_eq!(chip.register(0), 0x40);
    assert_eq!(chip.register(0xF), 1);
    let mut chip = machine_with(&[0x60, 0x81, 0x80, 0x1E]);
    run(&mut chip, 2);
    assert_eq!(chip.register(0), 0x02);
    assert_eq!(chip.register(0xF), 1);
    let mut chip = machine_with(&[0x60, 0x40, 0x80, 0x1E]);
    run(&mut chip, 2);
    assert_eq!(chip.register(0), 0x80);
    assert_eq!(chip.register(0xF), 0);
}

#[test]
fn skips_on_comparisons() {
    let mut chip = machine_with(&[0x60, 0x07, 0x30, 0x07]);
    run(&mut chip, 2);
    assert_eq!(chip.pc(), 0x206);
    let mut chip = machine_with(&[0x60, 0x07, 0x30, 0x08]);
    run(&mut chip, 2);
    assert_eq!(chip.pc(), 0x204);
    let mut chip = machine_with(&[0x60, 0x07, 0x40, 0x08]);
    run(&mut chip, 2);
    assert_eq!(chip.pc(), 0x206);
    let mut chip = machine_with(&[0x60, 0x07, 0x61, 0x07, 0x50, 0x10]);
    run(&mut chip, 3);
    assert_eq!(chip.pc(), 0x208);
    let mut chip = machine_with(&[0x60, 0x07, 0x61, 0x07, 0x90, 0x10]);
    run(&mut chip, 3);
    assert_eq!(chip.pc(), 0x206);
}

#[test]
fn jumps() {
    let mut chip = machine_with(&[0x13, 0x45]);
    run(&mut chip, 1);
    assert_eq!(chip.pc(), 0x345);
    let mut chip = machine_with(&[0x60, 0x10, 0xB3, 0x00]);
    run(&mut chip, 2);
    assert_eq!(chip.pc(), 0x310);
    let mut chip = machine_with(&[0x60, 0xFF, 0xBF, 0xFF]);
    run(&mut chip, 2);
    assert_eq!(chip.pc(), (0xFFF + 0xFF) % 4096);
}

#[test]
fn subroutine_round_trip() {
    let mut program = vec![0u8; 0x102];
    program[0] = 0x23;
    program[1] = 0x00;
    program[0x100] = 0x00;
    program[0x101] = 0xEE;
    let mut chip = machine_with(&program);
    assert_eq!(chip.step(0), StepOutcome::Continue);
    assert_eq!(chip.pc(), 0x300);
    assert_eq!(chip.stack_depth(), 1);
    assert_eq!(chip.step(0), StepOutcome::Continue);
    assert_eq!(chip.pc(), 0x202);
    assert_eq!(chip.stack_depth(), 0);
}

#[test]
fn return_with_empty_stack_halts() {
    let mut chip = machine_with(&[0x00, 0xEE]);
    assert_eq!(chip.step(0), StepOutcome::StackUnderflow);
    assert_eq!(chip.state(), ExecState::Halted);
    assert_eq!(chip.pc(), 0x200);
    assert_eq!(chip.step(0), StepOutcome::Halted);
}

#[test]
fn seventeenth_call_overflows() {
    let mut chip = machine_with(&[0x22, 0x00]);
    for _ in 0..16 {
        assert_eq!(chip.step(0), StepOutcome::Continue);
    }
    assert_eq!(chip.stack_depth(), 16);
    assert_eq!(chip.step(0), StepOutcome::StackOverflow);
    assert_eq!(chip.state(), ExecState::Halted);
}

#[test]
fn unknown_opcodes_halt() {
    for code in [0x0123u16, 0x5121, 0x9128, 0x8128, 0xE1FF, 0xF1FF] {
        let mut chip = machine_with(&[(code >> 8) as u8, code as u8]);
        assert_eq!(chip.step(0), StepOutcome::UnknownOpcode(code));
        assert_eq!(chip.state(), ExecState::Halted);
        assert_eq!(chip.pc(), 0x200);
    }
}

#[test]
fn wait_for_key_then_resume() {
    let mut chip = machine_with(&[0xF3, 0x0A]);
    assert_eq!(chip.step(0), StepOutcome::Continue);
    for _ in 0..5 {
        assert_eq!(chip.step(0), StepOutcome::Continue);
        assert_eq!(chip.pc(), 0x200);
    }
    assert_eq!(chip.state(), ExecState::AwaitingKey { target: 3, pressed: None });
    assert_eq!(chip.set_key(7, true), Ok(()));
    assert_eq!(chip.step(0), StepOutcome::Continue);
    assert_eq!(chip.register(3), 7);
    assert_eq!(chip.pc(), 0x202);
    assert_eq!(chip.state(), ExecState::Running);
}

#[test]
fn key_release_does_not_resume() {
    let mut chip = machine_with(&[0xF3, 0x0A]);
    chip.step(0);
    assert_eq!(chip.set_key(7, false), Ok(()));
    chip.step(0);
    assert_eq!(chip.pc(), 0x200);
}

#[test]
fn key_index_out_of_range() {
    let mut chip = Chip::new();
    assert_eq!(chip.set_key(16, true), Err(ChipError::KeyIndexOutOfRange));
    assert_eq!(chip.set_key(15, true), Ok(()));
    assert!(chip.key_pressed(15));
}

#[test]
fn key_skips() {
    let mut chip = machine_with(&[0x60, 0x05, 0xE0, 0x9E]);
    chip.set_key(5, true).unwrap();
    run(&mut chip, 2);
    assert_eq!(chip.pc(), 0x206);
    let mut chip = machine_with(&[0x60, 0x05, 0xE0, 0xA1]);
    run(&mut chip, 2);
    assert_eq!(chip.pc(), 0x206);
    let mut chip = machine_with(&[0x60, 0x25, 0xE0, 0x9E]);
    run(&mut chip, 2);
    assert_eq!(chip.pc(), 0x204);
}

#[test]
fn draw_font_glyph_and_collide() {
    // I = glyph of 0, draw at (0, 0) twice.
    let mut chip = machine_with(&[0x60, 0x00, 0xF0, 0x29, 0xD0, 0x05, 0xD0, 0x05]);
    run(&mut chip, 2);
    assert_eq!(chip.index(), 0);
    assert_eq!(chip.step(0), StepOutcome::DisplayDirty);
    assert_eq!(chip.register(0xF), 0);
    let d = chip.display();
    assert_eq!(&d[0..8], &[1, 1, 1, 1, 0, 0, 0, 0]);
    assert_eq!(&d[SCREEN_WIDTH..SCREEN_WIDTH + 8], &[1, 0, 0, 1, 0, 0, 0, 0]);
    assert_eq!(chip.step(0), StepOutcome::DisplayDirty);
    assert_eq!(chip.register(0xF), 1);
    assert!(chip.display().iter().all(|&p| p == 0));
}

#[test]
fn draw_wraps_around_edges() {
    // V0 = 62, V1 = 31, I = glyph of 0, draw 2 rows.
    let mut chip = machine_with(&[0x60, 62, 0x61, 31, 0x62, 0x00, 0xF2, 0x29, 0xD0, 0x12]);
    run(&mut chip, 5);
    let d = chip.display();
    let at = |x: usize, y: usize| d[y * SCREEN_WIDTH + x];
    assert_eq!(at(62, 31), 1);
    assert_eq!(at(63, 31), 1);
    assert_eq!(at(0, 31), 1);
    assert_eq!(at(1, 31), 1);
    assert_eq!(at(2, 31), 0);
    assert_eq!(at(62, 0), 1);
    assert_eq!(at(63, 0), 0);
    assert_eq!(at(1, 0), 1);
    assert_eq!(d.iter().map(|&p| p as usize).sum::<usize>(), 6);
}

#[test]
fn clear_screen() {
    let mut chip = machine_with(&[0xD0, 0x05, 0x00, 0xE0]);
    run(&mut chip, 1);
    assert!(chip.display().iter().any(|&p| p == 1));
    assert_eq!(chip.step(0), StepOutcome::DisplayDirty);
    assert!(chip.display().iter().all(|&p| p == 0));
    assert_eq!(chip.pc(), 0x204);
}

#[test]
fn index_operations() {
    let mut chip = machine_with(&[0xA1, 0x23, 0x60, 0x10, 0xF0, 0x1E]);
    run(&mut chip, 3);
    assert_eq!(chip.index(), 0x133);
    let mut chip = machine_with(&[0x60, 0x0F, 0xF0, 0x29]);
    run(&mut chip, 2);
    assert_eq!(chip.index(), 75);
}

#[test]
fn decimal_digits() {
    let mut chip = machine_with(&[0x60, 234, 0xA3, 0x00, 0xF0, 0x33]);
    run(&mut chip, 3);
    assert_eq!(chip.memory_at(0x300), 2);
    assert_eq!(chip.memory_at(0x301), 3);
    assert_eq!(chip.memory_at(0x302), 4);
}

#[test]
fn store_and_load_registers() {
    let mut chip = machine_with(&[
        0x60, 0x11, 0x61, 0x22, 0x62, 0x33, 0xA3, 0x00, 0xF1, 0x55, 0x60, 0x00, 0x61, 0x00, 0x62,
        0x00, 0xF2, 0x65,
    ]);
    run(&mut chip, 5);
    assert_eq!(chip.memory_at(0x300), 0x11);
    assert_eq!(chip.memory_at(0x301), 0x22);
    assert_eq!(chip.memory_at(0x302), 0);
    assert_eq!(chip.index(), 0x300);
    run(&mut chip, 4);
    assert_eq!(chip.register(0), 0x11);
    assert_eq!(chip.register(1), 0x22);
    assert_eq!(chip.register(2), 0);
    assert_eq!(chip.index(), 0x300);
}

#[test]
fn store_registers_wraps_at_memory_end() {
    let mut chip = machine_with(&[0x60, 0x11, 0x61, 0x22, 0xAF, 0xFF, 0xF1, 0x55]);
    run(&mut chip, 4);
    assert_eq!(chip.memory_at(0xFFF), 0x11);
    assert_eq!(chip.memory_at(0), 0x22);
}

#[test]
fn timers() {
    let mut chip = machine_with(&[0x60, 0x02, 0xF0, 0x15, 0xF0, 0x18, 0xF1, 0x07]);
    run(&mut chip, 4);
    assert_eq!(chip.delay_timer(), 2);
    assert_eq!(chip.sound_timer(), 2);
    assert_eq!(chip.register(1), 2);
    assert!(chip.sound_timer_active());
    chip.tick_timers();
    assert_eq!(chip.delay_timer(), 1);
    chip.tick_timers();
    chip.tick_timers();
    assert_eq!(chip.delay_timer(), 0);
    assert_eq!(chip.sound_timer(), 0);
    assert!(!chip.sound_timer_active());
}

#[test]
fn steps_do_not_touch_timers() {
    let mut chip = machine_with(&[0x60, 0x05, 0xF0, 0x15, 0x61, 0x00, 0x61, 0x00]);
    run(&mut chip, 4);
    assert_eq!(chip.delay_timer(), 5);
}

#[test]
fn random_is_masked() {
    let mut chip = machine_with(&[0xC0, 0xF0]);
    chip.step(0xAB);
    assert_eq!(chip.register(0), 0xA0);
    let mut chip = machine_with(&[0xC0, 0x00, 0xC1, 0x0F]);
    assert_eq!(chip.emulate_cycle(), StepOutcome::Continue);
    assert_eq!(chip.emulate_cycle(), StepOutcome::Continue);
    assert_eq!(chip.register(0), 0);
    assert!(chip.register(1) <= 0x0F);
    assert_eq!(chip.pc(), 0x204);
}
