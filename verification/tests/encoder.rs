use c8asm::lexer::tokenize;
use c8asm::parser::{code_gen, Encoder};
use c8asm::token::{Mnemonic, Register, Token};

fn words(source: &str) -> Vec<u16> {
    code_gen(&tokenize(source.as_bytes())).unwrap()
}

fn refused(source: &str) -> Token {
    code_gen(&tokenize(source.as_bytes())).unwrap_err()
}

#[test]
fn instructions_without_operands() {
    assert_eq!(words("cls"), vec![0x00E0]);
    assert_eq!(words("ret"), vec![0x00EE]);
    assert_eq!(words("cls ret cls"), vec![0x00E0, 0x00EE, 0x00E0]);
}

#[test]
fn call_and_jump_take_an_address() {
    assert_eq!(words("call 0x300"), vec![0x2300]);
    assert_eq!(words("jp 0x200"), vec![0x1200]);
    assert_eq!(words("jp 512"), vec![0x1200]);
}

#[test]
fn jump_with_offset_takes_only_v0() {
    assert_eq!(words("jp v0, 0x200"), vec![0xB200]);
    assert_eq!(refused("jp v1, 0x200"), Token::Reg(Register::V1, 1));
    assert_eq!(refused("jp vf, 0x200"), Token::Reg(Register::Vf, 1));
    assert_eq!(refused("jp v0, v0"), Token::Reg(Register::V0, 1));
}

#[test]
fn skips_on_equality() {
    assert_eq!(words("se v0, v1"), vec![0x5010]);
    assert_eq!(words("se va, 0x42"), vec![0x3A42]);
    assert_eq!(words("sne v2, v3"), vec![0x9230]);
    assert_eq!(words("sne vb, 7"), vec![0x4B07]);
}

#[test]
fn skips_on_keys() {
    assert_eq!(words("skp v4"), vec![0xE49E]);
    assert_eq!(words("sknp vc"), vec![0xECA1]);
}

#[test]
fn additions() {
    assert_eq!(words("add v2, 12"), vec![0x720C]);
    assert_eq!(words("add v2, v3"), vec![0x8234]);
}

#[test]
fn register_arithmetic() {
    assert_eq!(words("sub v1, v2"), vec![0x8125]);
    assert_eq!(words("subn v1, v2"), vec![0x8127]);
    assert_eq!(words("or v1, v2"), vec![0x8121]);
    assert_eq!(words("and v1, v2"), vec![0x8122]);
    assert_eq!(words("xor v1, v2"), vec![0x8123]);
    assert_eq!(words("shr v1, v2"), vec![0x8126]);
    assert_eq!(words("shl v1, v2"), vec![0x812E]);
    assert_eq!(words("shl vf, ve"), vec![0x8FEE]);
}

#[test]
fn random_and_draw() {
    assert_eq!(words("rnd v5, 0xff"), vec![0xC5FF]);
    assert_eq!(words("drw v0, v1, 5"), vec![0xD015]);
    assert_eq!(words("drw vd, ve, 0xf"), vec![0xDDEF]);
}

#[test]
fn loads() {
    assert_eq!(words("ld v1, v2"), vec![0x8120]);
    assert_eq!(words("ld v1, 0x2a"), vec![0x612A]);
    assert_eq!(words("ld i, 0x300"), vec![0xA300]);
    assert_eq!(words("ld st, v3"), vec![0xF318]);
    assert_eq!(words("ld dt, v3"), vec![0xF315]);
    assert_eq!(words("ld f, v3"), vec![0xF329]);
    assert_eq!(words("ld b, v3"), vec![0xF333]);
    assert_eq!(words("ld v3, k"), vec![0xF30A]);
    assert_eq!(words("ld [i], v0"), vec![0xF055]);
    assert_eq!(words("ld v0, [i]"), vec![0xF065]);
}

#[test]
fn every_register_has_its_number() {
    let names = [
        "v0", "v1", "v2", "v3", "v4", "v5", "v6", "v7", "v8", "v9", "va", "vb", "vc", "vd", "ve",
        "vf",
    ];
    for (n, name) in names.iter().enumerate() {
        let source = format!("skp {}", name);
        assert_eq!(words(&source), vec![0xE09E | ((n as u16) << 8)]);
    }
    assert_eq!(Register::V0.number(), 0);
    assert_eq!(Register::V9.number(), 9);
    assert_eq!(Register::Va.number(), 10);
    assert_eq!(Register::Vf.number(), 15);
}

#[test]
fn immediates_are_cut_to_their_field() {
    assert_eq!(words("ld v1, 0x1ff"), vec![0x61FF]);
    assert_eq!(words("add v1, 256"), vec![0x7100]);
    assert_eq!(words("se v1, 0xffff"), vec![0x31FF]);
    assert_eq!(words("rnd v1, 0x123"), vec![0xC123]);
    assert_eq!(words("jp 0xf234"), vec![0x1234]);
    assert_eq!(words("jp v0, 0x1000"), vec![0xB000]);
    assert_eq!(words("call 0xffff"), vec![0x2FFF]);
    assert_eq!(words("ld i, 0x1abc"), vec![0xAABC]);
    assert_eq!(words("drw v0, v1, 0x25"), vec![0xD015]);
    assert_eq!(words("drw v0, v1, 16"), vec![0xD010]);
}

#[test]
fn sys_takes_nothing() {
    assert_eq!(words("sys"), Vec::<u16>::new());
    assert_eq!(refused("sys 0x200"), Token::ImmConst(0x200, 1));
    assert_eq!(refused("sys v0"), Token::Reg(Register::V0, 1));
    assert_eq!(refused("sys\ncls"), Token::Opcode(Mnemonic::Cls, 2));
}

#[test]
fn operand_without_mnemonic_is_refused() {
    assert_eq!(refused("v0"), Token::Reg(Register::V0, 1));
    assert_eq!(refused("12"), Token::ImmConst(12, 1));
    assert_eq!(refused("k"), Token::K(1));
    assert_eq!(refused("f"), Token::F(1));
    assert_eq!(refused("b"), Token::B(1));
    assert_eq!(refused("i"), Token::I(1));
    assert_eq!(refused("st"), Token::St(1));
    assert_eq!(refused("dt"), Token::Dt(1));
    assert_eq!(refused("[i]"), Token::IVal(1));
    assert_eq!(refused("cls v0"), Token::Reg(Register::V0, 1));
    assert_eq!(refused("ret 3"), Token::ImmConst(3, 1));
}

#[test]
fn mnemonic_inside_an_instruction_is_refused() {
    assert_eq!(refused("add add"), Token::Opcode(Mnemonic::Add, 1));
    assert_eq!(refused("ld v0,\nld v1, 2"), Token::Opcode(Mnemonic::Ld, 2));
    assert_eq!(refused("jp\ncls"), Token::Opcode(Mnemonic::Cls, 2));
}

#[test]
fn wrong_operand_shapes_are_refused_at_the_first_wrong_token() {
    assert_eq!(refused("call v0"), Token::Reg(Register::V0, 1));
    assert_eq!(refused("skp 3"), Token::ImmConst(3, 1));
    assert_eq!(refused("sub v0, 3"), Token::ImmConst(3, 1));
    assert_eq!(refused("rnd v0, v1"), Token::Reg(Register::V1, 1));
    assert_eq!(refused("rnd 3"), Token::ImmConst(3, 1));
    assert_eq!(refused("drw v0, 3"), Token::ImmConst(3, 1));
    assert_eq!(refused("drw v0, v1, v2"), Token::Reg(Register::V2, 1));
    assert_eq!(refused("drw 1"), Token::ImmConst(1, 1));
    assert_eq!(refused("add i, v0"), Token::I(1));
    assert_eq!(refused("se k"), Token::K(1));
    assert_eq!(refused("xor v1, [i]"), Token::IVal(1));
    assert_eq!(refused("ld k"), Token::K(1));
    assert_eq!(refused("ld 5"), Token::ImmConst(5, 1));
    assert_eq!(refused("ld i, v0"), Token::Reg(Register::V0, 1));
    assert_eq!(refused("ld st, 5"), Token::ImmConst(5, 1));
    assert_eq!(refused("ld f, f"), Token::F(1));
    assert_eq!(refused("ld v0, st"), Token::St(1));
    assert_eq!(refused("ld v0, dt"), Token::Dt(1));
    assert_eq!(refused("ld v0, i"), Token::I(1));
    assert_eq!(refused("ld [i], 5"), Token::ImmConst(5, 1));
    assert_eq!(refused("ld [i], [i]"), Token::IVal(1));
}

#[test]
fn failure_reports_the_line_of_the_token() {
    let source = "cls\n; a comment\nld v0, 1\n\njp v3, 0x200\n";
    assert_eq!(refused(source), Token::Reg(Register::V3, 5));
    assert_eq!(refused(source).line(), 5);
}

#[test]
fn an_instruction_left_open_commits_nothing() {
    assert_eq!(words("cls\nld v0,"), vec![0x00E0]);
    assert_eq!(words("drw v0, v1"), Vec::<u16>::new());
    assert_eq!(words(""), Vec::<u16>::new());
}

#[test]
fn comments_are_legal_anywhere() {
    let tokens = vec![
        Token::Comment(1),
        Token::Opcode(Mnemonic::Drw, 2),
        Token::Comment(2),
        Token::Reg(Register::V0, 3),
        Token::Comment(3),
        Token::Reg(Register::V1, 4),
        Token::Comment(4),
        Token::ImmConst(5, 5),
        Token::Comment(5),
    ];
    assert_eq!(code_gen(&tokens), Ok(vec![0xD015]));
    let bare = vec![
        Token::Opcode(Mnemonic::Drw, 2),
        Token::Reg(Register::V0, 3),
        Token::Reg(Register::V1, 4),
        Token::ImmConst(5, 5),
    ];
    assert_eq!(code_gen(&bare), Ok(vec![0xD015]));
}

#[test]
fn lines_of_tokens_do_not_change_the_words() {
    let one =
        vec![Token::Opcode(Mnemonic::Se, 1), Token::Reg(Register::V0, 1), Token::ImmConst(9, 1)];
    let other =
        vec![Token::Opcode(Mnemonic::Se, 7), Token::Reg(Register::V0, 8), Token::ImmConst(9, 90)];
    assert_eq!(code_gen(&one), Ok(vec![0x3009]));
    assert_eq!(code_gen(&other), Ok(vec![0x3009]));
}

#[test]
fn encoder_keeps_the_words_committed_before_a_failure() {
    let mut encoder = Encoder::new();
    assert!(!encoder.is_open());
    assert_eq!(encoder.push(&Token::Opcode(Mnemonic::Cls, 1)), Ok(()));
    assert!(!encoder.is_open());
    assert_eq!(encoder.push(&Token::Opcode(Mnemonic::Ld, 2)), Ok(()));
    assert!(encoder.is_open());
    assert_eq!(encoder.push(&Token::Reg(Register::V1, 2)), Ok(()));
    assert_eq!(encoder.words(), &vec![0x00E0]);
    assert_eq!(encoder.push(&Token::St(2)), Err(Token::St(2)));
    assert!(encoder.is_open());
    assert_eq!(encoder.words(), &vec![0x00E0]);
    assert_eq!(encoder.push(&Token::ImmConst(0x155, 2)), Ok(()));
    assert!(!encoder.is_open());
    assert_eq!(encoder.into_words(), vec![0x00E0, 0x6155]);
}

#[test]
fn program_encodes_in_order() {
    let source = "\
        ld v0, 0     ; x\n\
        ld v1, 0     ; y\n\
        ld i, 0x20a\n\
        drw v0, v1, 5\n\
        add v0, 8\n\
        se v0, 64\n\
        jp 0x204\n\
        ret\n";
    assert_eq!(
        words(source),
        vec![0x6000, 0x6100, 0xA20A, 0xD015, 0x7008, 0x3040, 0x1204, 0x00EE]
    );
}

#[test]
fn words_before_a_failure_are_kept() {
    let tokens = tokenize(b"cls\nld v1, 2\njp v3, 0x200\nret\n");
    assert_eq!(
        c8asm::parser::encode_tokens(&tokens),
        (vec![0x00E0, 0x6102], Some(Token::Reg(Register::V3, 3)))
    );
    let tokens = tokenize(b"cls\nld v1, 2\n");
    assert_eq!(c8asm::parser::encode_tokens(&tokens), (vec![0x00E0, 0x6102], None));
    let tokens = tokenize(b"ld v1,\nld v2, 3\n");
    assert_eq!(
        c8asm::parser::encode_tokens(&tokens),
        (vec![], Some(Token::Opcode(Mnemonic::Ld, 2)))
    );
}
