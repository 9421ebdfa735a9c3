use chip8::memory::{merge_bytes, MainMemory, Memory, ROM};

#[test]
fn memory_test_read() {
    let mut mem = MainMemory::new();
    mem.write(0x563, 200);
    assert_eq!(mem.read(0x563), 200);
}

#[test]
fn test_write() {
    let mut mem = MainMemory::new();
    mem.write(0x345, 23);
    assert_eq!(mem.read(0x345), 23);
}

#[test]
fn write_leaves_other_cells() {
    let mut mem = MainMemory::new();
    mem.write(0xFFF, 7);
    assert_eq!(mem.read(0xFFF), 7);
    assert_eq!(mem.read(0xFFE), 0);
    assert_eq!(mem.read(0x000), 0);
}

#[test]
fn rom_is_loaded_after_the_font() {
    let rom = ROM::from_bytes(vec![0xAB, 0xCD, 0xEF]);
    let mem = MainMemory::with_rom(rom);
    assert_eq!(mem.read_bytes(0, 5), vec![0xF0, 0x90, 0x90, 0x90, 0xF0]);
    assert_eq!(mem.read_bytes(5, 5), vec![0x20, 0x60, 0x20, 0x20, 0x70]);
    assert_eq!(mem.read_bytes(20, 5), vec![0x90, 0x90, 0xF0, 0x10, 0x10]);
    assert_eq!(mem.read_bytes(75, 5), vec![0xF0, 0x80, 0xF0, 0x80, 0x80]);
    assert_eq!(mem.read(80), 0);
    assert_eq!(mem.read_bytes(0x200, 4), vec![0xAB, 0xCD, 0xEF, 0x00]);
}

#[test]
fn largest_rom_fills_memory() {
    let rom = ROM::from_bytes(vec![0x11; 3584]);
    let mem = MainMemory::with_rom(rom);
    assert_eq!(mem.read(0xFFF), 0x11);
    assert_eq!(mem.read(0x1FF), 0x00);
}

#[test]
fn merge_is_big_endian() {
    assert_eq!(merge_bytes(0x12, 0x34), 0x1234);
}

#[test]
fn rom_words() {
    let rom = ROM::from_bytes(vec![0x12, 0x34, 0x56]);
    assert_eq!(rom.size(), 3);
    assert_eq!(rom.bytes(), &[0x12, 0x34, 0x56][..]);
    assert_eq!(rom.instructions(), vec![0x1234, 0x5600]);
    assert_eq!(ROM::from_bytes(vec![]).instructions(), Vec::<u16>::new());
}

#[test]
#[should_panic]
fn test_write_out_of_bound() {
    let mut mem = MainMemory::new();
    mem.write(0x1345, 34);
}

#[test]
#[should_panic]
fn test_read_out_of_bound() {
    let mem = MainMemory::new();
    mem.read(0x6721);
}
