use chip8::assembler::{source_to_bytecode, token_of_folded, AssemblerError, Mnemonic, Token};
use chip8::instruction::decode_instruction;

#[test]
fn assembles_the_supported_mnemonics() {
    let code = source_to_bytecode("CLS\nRET\nSYS 0x314\nJP 0x208\nCALL 0x2F0\n").unwrap();
    assert_eq!(code, vec![0x00, 0xE0, 0x00, 0xEE, 0x03, 0x14, 0x12, 0x08, 0x22, 0xF0]);
}

#[test]
fn case_and_blanks_do_not_matter() {
    let code = source_to_bytecode("  cls\n\n\tJp    0X208 \r\ncall 0xabc").unwrap();
    assert_eq!(code, vec![0x00, 0xE0, 0x12, 0x08, 0x2A, 0xBC]);
}

#[test]
fn address_is_cut_to_twelve_bits() {
    assert_eq!(source_to_bytecode("JP 0xF123").unwrap(), vec![0x11, 0x23]);
}

#[test]
fn other_mnemonics_give_no_bytes() {
    assert_eq!(source_to_bytecode("LD V0 0x05").unwrap(), Vec::<u8>::new());
    assert_eq!(source_to_bytecode("").unwrap(), Vec::<u8>::new());
}

#[test]
fn errors() {
    assert_eq!(source_to_bytecode("V0 0x200"), Err(AssemblerError::ExpectedInstruction));
    assert_eq!(source_to_bytecode("CLS\n0x200"), Err(AssemblerError::ExpectedInstruction));
    assert_eq!(source_to_bytecode("JP"), Err(AssemblerError::ExpectedAddress));
    assert_eq!(source_to_bytecode("CALL V1"), Err(AssemblerError::ExpectedAddress));
    assert_eq!(source_to_bytecode("SYS 0x12345"), Err(AssemblerError::ExpectedAddress));
    assert_eq!(AssemblerError::ExpectedAddress.to_text(), "An address was expected.");
    assert_eq!(AssemblerError::ExpectedInstruction.to_text(), "An expression was expected.");
}

#[test]
fn tokens() {
    assert_eq!(token_of_folded("sknp"), Token::Instruction(Mnemonic::SKNP));
    assert_eq!(token_of_folded("[i]"), Token::DerefRegisterI);
    assert_eq!(token_of_folded("dt"), Token::RegisterDT);
    assert_eq!(token_of_folded("vb"), Token::Register(0xB));
    assert_eq!(token_of_folded("xv3,"), Token::Register(3));
    assert_eq!(token_of_folded("0x1f,"), Token::Literal(0x1F));
    assert_eq!(token_of_folded("0x"), Token::Unknown);
    assert_eq!(token_of_folded("0x10000"), Token::Unknown);
    assert_eq!(token_of_folded("v"), Token::Unknown);
    assert_eq!(token_of_folded("SYS"), Token::Unknown);
}

#[test]
fn listing_assembles_back() {
    for w in [0x00E0u16, 0x00EE, 0x0314, 0x0FFF, 0x1208, 0x1ABC, 0x22F0, 0x2001] {
        let text = decode_instruction(w).to_text();
        assert_eq!(source_to_bytecode(&text).unwrap(), vec![(w >> 8) as u8, (w & 0xFF) as u8]);
    }
}
