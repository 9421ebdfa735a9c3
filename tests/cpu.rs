use chip8::bus::Bus;
use chip8::cpu::{Fault, CPU};
use chip8::memory::{MainMemory, Memory, ROM};
use chip8::watcher::Watcher;

fn machine(program: &[u8]) -> (CPU, Bus) {
    let rom = ROM::from_bytes(program.to_vec());
    (CPU::new(Watcher::new()), Bus::new(MainMemory::with_rom(rom)))
}

fn run(cpu: &mut CPU, bus: &mut Bus, ticks: usize) {
    for _ in 0..ticks {
        assert_eq!(cpu.next_fault(bus), None);
        cpu.tick_with(bus, 0);
    }
}

#[test]
fn jump_then_unknown_is_fatal() {
    let (mut cpu, mut bus) = machine(&[0x12, 0x04, 0x00, 0x00, 0x00, 0x00]);
    run(&mut cpu, &mut bus, 1);
    assert_eq!(cpu.pc(), 0x204);
    assert_eq!(cpu.next_fault(&bus), Some(Fault::IllegalInstruction));
}

#[test]
fn load_add_and_skip() {
    let (mut cpu, mut bus) = machine(&[0x60, 0x05, 0x70, 0x03, 0x30, 0x08, 0x60, 0xFF]);
    run(&mut cpu, &mut bus, 3);
    assert_eq!(cpu.get_reg(0), 0x08);
    assert_eq!(cpu.pc(), 0x208);
    // the word after the program is zero, which encodes nothing
    assert_eq!(cpu.next_fault(&bus), Some(Fault::IllegalInstruction));
}

#[test]
fn call_then_ret() {
    let (mut cpu, mut bus) = machine(&[0x22, 0x06, 0x00, 0xE0, 0x00, 0xE0, 0x00, 0xEE]);
    run(&mut cpu, &mut bus, 1);
    assert_eq!(cpu.pc(), 0x206);
    assert_eq!(cpu.stack_pointer(), 1);
    assert_eq!(cpu.stack()[0], 0x202);
    run(&mut cpu, &mut bus, 1);
    assert_eq!(cpu.pc(), 0x202);
    assert_eq!(cpu.stack_pointer(), 0);
}

#[test]
fn sprite_draw_and_collision() {
    let mut program = vec![0xA3, 0x00, 0x60, 0x00, 0x61, 0x00, 0xD0, 0x11, 0xD0, 0x11];
    program.resize(0x100, 0);
    program.push(0xFF);
    let (mut cpu, mut bus) = machine(&program);
    run(&mut cpu, &mut bus, 4);
    assert_eq!(cpu.get_reg(0xF), 0);
    for x in 0..8 {
        assert!(bus.get_frame_buffer().read((x, 0)));
    }
    assert!(!bus.get_frame_buffer().read((8, 0)));
    run(&mut cpu, &mut bus, 1);
    assert_eq!(cpu.get_reg(0xF), 1);
    for x in 0..8 {
        assert!(!bus.get_frame_buffer().read((x, 0)));
    }
}

#[test]
fn draw_clears_flag_without_collision() {
    let mut program = vec![0x6F, 0x01, 0xA3, 0x00, 0xD0, 0x01];
    program.resize(0x100, 0);
    program.push(0xFF);
    let (mut cpu, mut bus) = machine(&program);
    run(&mut cpu, &mut bus, 3);
    assert_eq!(cpu.get_reg(0xF), 0);
}

#[test]
fn bcd_of_254() {
    let (mut cpu, mut bus) = machine(&[0x62, 0xFE, 0xA4, 0x00, 0xF2, 0x33]);
    run(&mut cpu, &mut bus, 3);
    assert_eq!(bus.read_bytes(0x400, 3), vec![2, 5, 4]);
    assert_eq!(bus.get_ram().read(0x403), 0);
}

#[test]
fn key_wait() {
    let (mut cpu, mut bus) = machine(&[0xF0, 0x0A]);
    run(&mut cpu, &mut bus, 1);
    assert_eq!(cpu.pc(), 0x200);
    bus.press_key(Some(0xA));
    run(&mut cpu, &mut bus, 1);
    assert_eq!(cpu.get_reg(0), 0x0A);
    assert_eq!(cpu.pc(), 0x202);
}

#[test]
fn add_with_carry() {
    let (mut cpu, mut bus) = machine(&[0x60, 0xFF, 0x61, 0x02, 0x80, 0x14]);
    run(&mut cpu, &mut bus, 3);
    assert_eq!(cpu.get_reg(0), 0x01);
    assert_eq!(cpu.get_reg(0xF), 1);
}

#[test]
fn add_byte_leaves_flag() {
    let (mut cpu, mut bus) = machine(&[0x6F, 0x00, 0x60, 0xFF, 0x70, 0x02]);
    run(&mut cpu, &mut bus, 3);
    assert_eq!(cpu.get_reg(0), 0x01);
    assert_eq!(cpu.get_reg(0xF), 0);
}

#[test]
fn sub_and_subn() {
    let (mut cpu, mut bus) = machine(&[0x60, 0x05, 0x61, 0x07, 0x80, 0x15]);
    run(&mut cpu, &mut bus, 3);
    assert_eq!(cpu.get_reg(0), 0xFE);
    assert_eq!(cpu.get_reg(0xF), 0);
    let (mut cpu, mut bus) = machine(&[0x60, 0x05, 0x61, 0x07, 0x80, 0x17]);
    run(&mut cpu, &mut bus, 3);
    assert_eq!(cpu.get_reg(0), 0x02);
    assert_eq!(cpu.get_reg(0xF), 1);
    let (mut cpu, mut bus) = machine(&[0x60, 0x07, 0x61, 0x07, 0x80, 0x15]);
    run(&mut cpu, &mut bus, 3);
    assert_eq!(cpu.get_reg(0), 0x00);
    assert_eq!(cpu.get_reg(0xF), 0);
}

#[test]
fn shifts() {
    let (mut cpu, mut bus) = machine(&[0x60, 0x05, 0x80, 0x06]);
    run(&mut cpu, &mut bus, 2);
    assert_eq!(cpu.get_reg(0), 0x02);
    assert_eq!(cpu.get_reg(0xF), 1);
    let (mut cpu, mut bus) = machine(&[0x60, 0x81, 0x80, 0x0E]);
    run(&mut cpu, &mut bus, 2);
    assert_eq!(cpu.get_reg(0), 0x02);
    assert_eq!(cpu.get_reg(0xF), 1);
    let (mut cpu, mut bus) = machine(&[0x60, 0x40, 0x80, 0x0E]);
    run(&mut cpu, &mut bus, 2);
    assert_eq!(cpu.get_reg(0), 0x80);
    assert_eq!(cpu.get_reg(0xF), 0);
}

#[test]
fn flag_wins_when_vf_is_the_target() {
    let (mut cpu, mut bus) = machine(&[0x6F, 0xFF, 0x61, 0x02, 0x8F, 0x14]);
    run(&mut cpu, &mut bus, 3);
    assert_eq!(cpu.get_reg(0xF), 1);
}

#[test]
fn bitwise() {
    let (mut cpu, mut bus) = machine(&[0x60, 0x0C, 0x61, 0x0A, 0x80, 0x11, 0x62, 0x0C, 0x82, 0x12, 0x63, 0x0C, 0x83, 0x13, 0x84, 0x30]);
    run(&mut cpu, &mut bus, 8);
    assert_eq!(cpu.get_reg(0), 0x0E);
    assert_eq!(cpu.get_reg(2), 0x08);
    assert_eq!(cpu.get_reg(3), 0x06);
    assert_eq!(cpu.get_reg(4), 0x06);
}

#[test]
fn random_byte_is_masked() {
    let (mut cpu, mut bus) = machine(&[0xC0, 0x0F, 0xC1, 0x0F]);
    cpu.tick_with(&mut bus, 0xAB);
    assert_eq!(cpu.get_reg(0), 0x0B);
    cpu.tick(&mut bus);
    assert!(cpu.get_reg(1) <= 0x0F);
}

#[test]
fn timers() {
    let (mut cpu, mut bus) = machine(&[0x60, 0x02, 0xF0, 0x15, 0xF0, 0x18, 0xF1, 0x07]);
    run(&mut cpu, &mut bus, 3);
    assert_eq!(cpu.delay_timer(), 2);
    assert_eq!(cpu.sound_timer(), 2);
    cpu.timer_decrement();
    cpu.timer_decrement();
    cpu.timer_decrement();
    assert_eq!(cpu.delay_timer(), 0);
    assert_eq!(cpu.sound_timer(), 0);
    run(&mut cpu, &mut bus, 1);
    assert_eq!(cpu.get_reg(1), 0);
}

#[test]
fn font_address_and_index() {
    let (mut cpu, mut bus) = machine(&[0x60, 0x0A, 0xF0, 0x29, 0x61, 0x10, 0xF1, 0x1E]);
    run(&mut cpu, &mut bus, 2);
    assert_eq!(cpu.index_register(), 50);
    run(&mut cpu, &mut bus, 2);
    assert_eq!(cpu.index_register(), 66);
}

#[test]
fn store_and_load_registers() {
    let (mut cpu, mut bus) = machine(&[
        0x60, 0x01, 0x61, 0x02, 0x62, 0x03, 0xA3, 0x00, 0xF1, 0x55, 0x60, 0x00, 0x61, 0x00,
        0xF1, 0x65,
    ]);
    run(&mut cpu, &mut bus, 5);
    assert_eq!(bus.read_bytes(0x300, 3), vec![1, 2, 0]);
    assert_eq!(cpu.index_register(), 0x300);
    run(&mut cpu, &mut bus, 3);
    assert_eq!(cpu.get_reg(0), 1);
    assert_eq!(cpu.get_reg(1), 2);
    assert_eq!(cpu.get_reg(2), 3);
}

#[test]
fn jumps_and_skips() {
    let (mut cpu, mut bus) = machine(&[0x60, 0x04, 0xB3, 0x00]);
    run(&mut cpu, &mut bus, 2);
    assert_eq!(cpu.pc(), 0x304);
    let (mut cpu, mut bus) = machine(&[0x60, 0x05, 0x40, 0x05, 0x50, 0x10, 0x90, 0x10]);
    run(&mut cpu, &mut bus, 2);
    assert_eq!(cpu.pc(), 0x204);
    run(&mut cpu, &mut bus, 1);
    assert_eq!(cpu.pc(), 0x206);
    run(&mut cpu, &mut bus, 1);
    assert_eq!(cpu.pc(), 0x20A);
}

#[test]
fn key_skips() {
    let (mut cpu, mut bus) = machine(&[0x60, 0x03, 0xE0, 0x9E, 0x00, 0x00, 0xE0, 0xA1]);
    bus.press_key(Some(3));
    run(&mut cpu, &mut bus, 2);
    assert_eq!(cpu.pc(), 0x206);
    run(&mut cpu, &mut bus, 1);
    assert_eq!(cpu.pc(), 0x208);
    let (mut cpu, mut bus) = machine(&[0x60, 0x03, 0xE0, 0xA1]);
    run(&mut cpu, &mut bus, 2);
    assert_eq!(cpu.pc(), 0x206);
}

#[test]
fn clear_screen_instruction() {
    let mut program = vec![0xA3, 0x00, 0xD0, 0x01, 0x00, 0xE0];
    program.resize(0x100, 0);
    program.push(0xFF);
    let (mut cpu, mut bus) = machine(&program);
    run(&mut cpu, &mut bus, 2);
    assert!(bus.get_frame_buffer().read((0, 0)));
    run(&mut cpu, &mut bus, 1);
    assert!(!bus.get_frame_buffer().read((0, 0)));
}

#[test]
fn stack_faults() {
    let (cpu, bus) = machine(&[0x00, 0xEE]);
    assert_eq!(cpu.next_fault(&bus), Some(Fault::StackUnderflow));
    let (mut cpu, mut bus) = machine(&[0x22, 0x00]);
    run(&mut cpu, &mut bus, 16);
    assert_eq!(cpu.stack_pointer(), 16);
    assert_eq!(cpu.next_fault(&bus), Some(Fault::StackOverflow));
}

#[test]
fn address_faults() {
    let (mut cpu, mut bus) = machine(&[0xAF, 0xFE, 0xF0, 0x33]);
    run(&mut cpu, &mut bus, 1);
    assert_eq!(cpu.next_fault(&bus), Some(Fault::AddressOutOfRange));
    let (mut cpu, mut bus) = machine(&[0x1F, 0xFF]);
    run(&mut cpu, &mut bus, 1);
    assert_eq!(cpu.next_fault(&bus), Some(Fault::AddressOutOfRange));
}

#[test]
fn reset_keeps_memory() {
    let (mut cpu, mut bus) = machine(&[0x60, 0x05, 0xA3, 0x00, 0xF0, 0x55]);
    run(&mut cpu, &mut bus, 3);
    cpu.reset();
    assert_eq!(cpu.pc(), 0x200);
    assert_eq!(cpu.get_reg(0), 0);
    assert_eq!(cpu.index_register(), 0);
    assert_eq!(bus.read_bytes(0x300, 1), vec![5]);
    assert_eq!(cpu.registers(), [0u8; 16]);
}

#[test]
fn verbose_flag_is_kept() {
    let mut watcher = Watcher::new();
    assert!(!watcher.verbose);
    watcher.verbose = true;
    let cpu = CPU::new(watcher);
    assert!(cpu.verbose());
}
