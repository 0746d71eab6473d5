use chip8::bus::Bus;
use chip8::keypad::Keypad;
use chip8::memory::RAM;
use chip8::vm::{Chip8, KeyEvent};

#[test]
fn memory_is_seeded_with_the_font() {
    let ram = RAM::new();
    // glyph 0 starts with 0xF0 and glyph F ends with 0x80
    assert_eq!(ram.read_byte_from_ram(0), 0xF0);
    assert_eq!(ram.read_byte_from_ram(4), 0xF0);
    assert_eq!(ram.read_byte_from_ram(5), 0x20);
    assert_eq!(ram.read_byte_from_ram(79), 0x80);
    // everything past the font is zero
    for a in 80..4096 {
        assert_eq!(ram.read_byte_from_ram(a), 0);
    }
}

#[test]
fn memory_write_read_roundtrip() {
    let mut ram = RAM::new();
    ram.write_byte_to_ram(0x200, 0xAB);
    ram.write_byte_to_ram(0xFFF, 0xCD);
    assert_eq!(ram.read_byte_from_ram(0x200), 0xAB);
    assert_eq!(ram.read_byte_from_ram(0xFFF), 0xCD);
    assert_eq!(ram.read_byte_from_ram(0x201), 0);
}

#[test]
fn keypad_tracks_presses_and_clears_wholesale() {
    let mut kp = Keypad::new();
    for k in 0..16 {
        assert!(!kp.is_key_down(k));
    }
    kp.press_key(4);
    kp.press_key(11);
    assert!(kp.is_key_down(4));
    assert!(kp.is_key_down(11));
    assert!(!kp.is_key_down(5));
    assert_eq!(kp.pressed_key(), Some(11));
    kp.release_keys();
    for k in 0..16 {
        assert!(!kp.is_key_down(k));
    }
    assert_eq!(kp.pressed_key(), None);
}

#[test]
fn fresh_bus_is_quiet() {
    let mut bus = Bus::new();
    assert_eq!(bus.ram.read_byte_from_ram(0x200), 0);
    assert_eq!(bus.display.get_pixel(0, 0), 0);
    assert!(!bus.keypad.is_key_down(0));
}

#[test]
fn new_machine_starts_at_program_space() {
    let vm = Chip8::new();
    assert_eq!(vm.cpu.pc, 0x200);
    assert_eq!(vm.cpu.i, 0);
    assert_eq!(vm.cpu.sp, 0);
    assert_eq!(vm.cpu.dt, 0);
    assert_eq!(vm.cpu.st, 0);
    for k in 0..16 {
        assert_eq!(vm.cpu.gp[k], 0);
        assert_eq!(vm.cpu.stack[k], 0);
    }
}

#[test]
fn load_rom_writes_from_program_start() {
    let mut vm = Chip8::new();
    vm.load_rom(&vec![0x12, 0x34, 0x56]);
    assert_eq!(vm.bus.ram.read_byte_from_ram(0x1FF), 0);
    assert_eq!(vm.bus.ram.read_byte_from_ram(0x200), 0x12);
    assert_eq!(vm.bus.ram.read_byte_from_ram(0x201), 0x34);
    assert_eq!(vm.bus.ram.read_byte_from_ram(0x202), 0x56);
    assert_eq!(vm.bus.ram.read_byte_from_ram(0x203), 0);
    // the font is untouched
    assert_eq!(vm.bus.ram.read_byte_from_ram(0), 0xF0);
}

#[test]
fn timers_count_down_and_stop_at_zero() {
    let mut vm = Chip8::new();
    vm.cpu.dt = 2;
    vm.cpu.st = 1;
    assert!(vm.tick_timers());
    assert_eq!(vm.cpu.dt, 1);
    assert_eq!(vm.cpu.st, 0);
    assert!(!vm.tick_timers());
    assert_eq!(vm.cpu.dt, 0);
    assert_eq!(vm.cpu.st, 0);
    assert!(!vm.tick_timers());
    assert_eq!(vm.cpu.dt, 0);
}

#[test]
fn key_events_reach_the_keypad() {
    let mut vm = Chip8::new();
    vm.handle_key_event(KeyEvent::Down { key: 0xC });
    assert!(vm.bus.keypad.is_key_down(0xC));
    vm.handle_key_event(KeyEvent::Up);
    for k in 0..16 {
        assert!(!vm.bus.keypad.is_key_down(k));
    }
}

#[test]
fn cls_opcode_clears_a_drawn_screen() {
    let mut vm = Chip8::new();
    vm.load_rom(&vec![0xD0, 0x15, 0x00, 0xE0]);
    vm.step().unwrap();
    assert!(vm.snapshot_display().iter().any(|&p| p == 1));
    vm.step().unwrap();
    assert!(vm.snapshot_display().iter().all(|&p| p == 0));
    assert_eq!(vm.cpu.pc, 0x204);
}

#[test]
fn a_small_program_runs_to_its_loop() {
    // V0 = 3; V0 += 4; store BCD of V0 at I = 0x400; spin
    let mut vm = Chip8::new();
    vm.load_rom(&vec![0x60, 0x03, 0x70, 0x04, 0xA4, 0x00, 0xF0, 0x33, 0x12, 0x08]);
    for _ in 0..4 {
        vm.step().unwrap();
    }
    assert_eq!(vm.bus.ram.read_byte_from_ram(0x400), 0);
    assert_eq!(vm.bus.ram.read_byte_from_ram(0x401), 0);
    assert_eq!(vm.bus.ram.read_byte_from_ram(0x402), 7);
    vm.step().unwrap();
    assert_eq!(vm.cpu.pc, 0x208);
    vm.step().unwrap();
    assert_eq!(vm.cpu.pc, 0x208);
}
