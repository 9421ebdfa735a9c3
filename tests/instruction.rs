use chip8::instruction::{decode_instruction, truncate_1_byte, truncate_2_bytes, InstructionData};
use chip8::memory::ROM;
use chip8::text::disassembly;

#[test]
fn decode_simple() {
    match decode_instruction(0x00E0) {
        InstructionData::Cls => {}
        _ => assert!(false, "Decoded instruction is not CLS"),
    }
}

#[test]
fn decode_with_data() {
    if let InstructionData::Sys(data) = decode_instruction(0x0314) {
        assert_eq!(data, 0x314);
    } else {
        assert!(false, "Decoded instruction is not SYS");
    }
}

#[test]
fn truncation_2_bytes() {
    assert_eq!(truncate_2_bytes(0xCAFE), 0xFE);
}

#[test]
fn truncation_1_byte() {
    assert_eq!(truncate_1_byte(0xCAFE), 0xE);
}

#[test]
fn decode_covers_the_table() {
    assert_eq!(decode_instruction(0x00EE), InstructionData::Ret);
    assert_eq!(decode_instruction(0x0000), InstructionData::Unknown);
    assert_eq!(decode_instruction(0x1ABC), InstructionData::Jp(0xABC));
    assert_eq!(decode_instruction(0x2ABC), InstructionData::Call(0xABC));
    assert_eq!(decode_instruction(0x3A12), InstructionData::Se(0xA, 0x12));
    assert_eq!(decode_instruction(0x4A12), InstructionData::Sne(0xA, 0x12));
    assert_eq!(decode_instruction(0x5AB0), InstructionData::SeReg(0xA, 0xB));
    assert_eq!(decode_instruction(0x5AB1), InstructionData::Unknown);
    assert_eq!(decode_instruction(0x6A12), InstructionData::Ld(0xA, 0x12));
    assert_eq!(decode_instruction(0x7A12), InstructionData::Add(0xA, 0x12));
    assert_eq!(decode_instruction(0x8AB0), InstructionData::LdReg(0xA, 0xB));
    assert_eq!(decode_instruction(0x8AB1), InstructionData::Or(0xA, 0xB));
    assert_eq!(decode_instruction(0x8AB2), InstructionData::And(0xA, 0xB));
    assert_eq!(decode_instruction(0x8AB3), InstructionData::Xor(0xA, 0xB));
    assert_eq!(decode_instruction(0x8AB4), InstructionData::AddReg(0xA, 0xB));
    assert_eq!(decode_instruction(0x8AB5), InstructionData::SubReg(0xA, 0xB));
    assert_eq!(decode_instruction(0x8AB6), InstructionData::Shr(0xA, 0xB));
    assert_eq!(decode_instruction(0x8AB7), InstructionData::SubN(0xA, 0xB));
    assert_eq!(decode_instruction(0x8ABE), InstructionData::Shl(0xA, 0xB));
    assert_eq!(decode_instruction(0x8AB8), InstructionData::Unknown);
    assert_eq!(decode_instruction(0x9AB0), InstructionData::SneReg(0xA, 0xB));
    assert_eq!(decode_instruction(0x9AB3), InstructionData::Unknown);
    assert_eq!(decode_instruction(0xA123), InstructionData::LdI(0x123));
    assert_eq!(decode_instruction(0xB123), InstructionData::JpV0(0x123));
    assert_eq!(decode_instruction(0xC1F0), InstructionData::Rnd(0x1, 0xF0));
    assert_eq!(decode_instruction(0xD125), InstructionData::Drw(0x1, 0x2, 0x5));
    assert_eq!(decode_instruction(0xE19E), InstructionData::Skp(0x1));
    assert_eq!(decode_instruction(0xE1A1), InstructionData::Sknp(0x1));
    assert_eq!(decode_instruction(0xE1A2), InstructionData::Unknown);
    assert_eq!(decode_instruction(0xF107), InstructionData::LdRegDt(0x1));
    assert_eq!(decode_instruction(0xF10A), InstructionData::LdK(0x1));
    assert_eq!(decode_instruction(0xF115), InstructionData::LdDtReg(0x1));
    assert_eq!(decode_instruction(0xF118), InstructionData::LdSt(0x1));
    assert_eq!(decode_instruction(0xF11E), InstructionData::AddI(0x1));
    assert_eq!(decode_instruction(0xF129), InstructionData::LdF(0x1));
    assert_eq!(decode_instruction(0xF133), InstructionData::LdB(0x1));
    assert_eq!(decode_instruction(0xF155), InstructionData::LdIMem(0x1));
    assert_eq!(decode_instruction(0xF165), InstructionData::LdVx(0x1));
    assert_eq!(decode_instruction(0xF166), InstructionData::Unknown);
}

#[test]
fn listing_text() {
    assert_eq!(InstructionData::Sys(0x314).to_text(), "SYS   0x314");
    assert_eq!(InstructionData::Cls.to_text(), "CLS  ");
    assert_eq!(InstructionData::Se(0xA, 0x0F).to_text(), "SE    VA, 0x0F");
    assert_eq!(InstructionData::SubN(1, 2).to_text(), "SUBN  V1, V2");
    assert_eq!(InstructionData::Drw(0, 1, 5).to_text(), "DRW   V0, V1, 0x5");
    assert_eq!(InstructionData::LdI(0xABC).to_text(), "LD    I, 0xABC");
    assert_eq!(InstructionData::JpV0(0x300).to_text(), "JP    V0, 0x300");
    assert_eq!(InstructionData::LdSt(3).to_text(), "LD    ST, V3");
    assert_eq!(InstructionData::LdVx(3).to_text(), "LD    V3, [I]");
    assert_eq!(InstructionData::Unknown.to_text(), "XXXXXXXXXXXXXX");
}

#[test]
fn disassembly_pads_an_odd_last_byte() {
    let rom = ROM::from_bytes(vec![0x00, 0xE0, 0x12]);
    let lines = disassembly(&rom);
    assert_eq!(lines, vec!["CLS  ".to_string(), "JP    0x200".to_string()]);
}
