use c8asm::assembler::{assemble, emit};
use c8asm::token::{Mnemonic, Register, Token};

#[test]
fn words_are_written_most_significant_byte_first() {
    assert_eq!(emit(&vec![]), Vec::<u8>::new());
    assert_eq!(emit(&vec![0x00E0]), vec![0x00, 0xE0]);
    assert_eq!(emit(&vec![0x1234, 0xABCD, 0xFF00]), vec![0x12, 0x34, 0xAB, 0xCD, 0xFF, 0x00]);
}

#[test]
fn source_assembles_to_bytes() {
    assert_eq!(assemble(b"ld i, 0x300\ndrw v0, v1, 5\n"), Ok(vec![0xA3, 0x00, 0xD0, 0x15]));
    assert_eq!(assemble(b"cls cls"), Ok(vec![0x00, 0xE0, 0x00, 0xE0]));
    assert_eq!(assemble(b""), Ok(vec![]));
}

#[test]
fn failure_gives_the_token_and_no_bytes() {
    assert_eq!(assemble(b"add add"), Err(Token::Opcode(Mnemonic::Add, 1)));
    assert_eq!(assemble(b"cls\njp v2, 0x200"), Err(Token::Reg(Register::V2, 2)));
}

#[test]
fn malformed_literal_surfaces_as_an_unexpected_token() {
    assert_eq!(assemble(b"ld v0, 0xzz\nld v1, 2\n"), Err(Token::Opcode(Mnemonic::Ld, 2)));
    assert_eq!(assemble(b"ld v0, 70000\ncls\n"), Err(Token::Opcode(Mnemonic::Cls, 2)));
}

#[test]
fn blank_and_comment_lines_change_nothing() {
    let bare = b"ld v0, 1\nadd v0, v1\nret\n";
    let padded = b"\n; start\nld v0, 1\n\n   \t\n ,, ; add them\nadd v0, v1\n;\nret\n; end\n\n";
    assert_eq!(assemble(bare), Ok(vec![0x60, 0x01, 0x80, 0x14, 0x00, 0xEE]));
    assert_eq!(assemble(padded), assemble(bare));
}

#[test]
fn blank_and_comment_lines_inside_an_instruction_change_nothing() {
    assert_eq!(assemble(b"drw v0,\n; the row\nv1,\n\n5\n"), Ok(vec![0xD0, 0x15]));
}

#[test]
fn blank_and_comment_lines_keep_a_failure() {
    assert_eq!(assemble(b"jp v1, 0\n"), Err(Token::Reg(Register::V1, 1)));
    assert_eq!(assemble(b"; why\n\njp v1, 0\n"), Err(Token::Reg(Register::V1, 3)));
}

#[test]
fn case_does_not_change_the_bytes() {
    assert_eq!(
        assemble(b"LD VA, 0XFF\nDRW V0, VB, 0XC\n"),
        assemble(b"ld va, 0xff\ndrw v0, vb, 0xc\n")
    );
    assert_eq!(assemble(b"Ld [I], vF"), Ok(vec![0xFF, 0x55]));
}

#[test]
fn tokenizer_and_encoder_are_reached_through_either_module() {
    let mut stream = c8asm::parser::Stream::new(b"skp v7".to_vec());
    let mut tokens: Vec<c8asm::parser::Token> = Vec::new();
    while !stream.is_done() {
        if let Some(token) = stream.next_token() {
            tokens.push(token);
        }
    }
    assert_eq!(c8asm::parser::code_gen(&tokens), Ok(vec![0xE79E]));
    assert_eq!(c8asm::lexer::code_gen(&tokens), Ok(vec![0xE79E]));
    assert_eq!(tokens[0], c8asm::lexer::Token::Opcode(c8asm::lexer::Mnemonic::Skp, 1));
    assert_eq!(tokens[1], c8asm::parser::Token::Reg(c8asm::parser::Register::V7, 1));
}
