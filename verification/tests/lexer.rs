use c8asm::lexer::{tokenize, Radix, Stream};
use c8asm::token::{Mnemonic, Register, Token};

#[test]
fn separators_split_and_vanish() {
    let tokens = tokenize(b"ld,v0 \t,, 7\n");
    assert_eq!(
        tokens,
        vec![Token::Opcode(Mnemonic::Ld, 1), Token::Reg(Register::V0, 1), Token::ImmConst(7, 1)]
    );
    assert_eq!(tokenize(b""), Vec::<Token>::new());
    assert_eq!(tokenize(b" ,\t\n\n , "), Vec::<Token>::new());
}

#[test]
fn end_of_input_flushes_the_last_buffer() {
    assert_eq!(tokenize(b"ret"), vec![Token::Opcode(Mnemonic::Ret, 1)]);
    assert_eq!(tokenize(b"\n\nret"), vec![Token::Opcode(Mnemonic::Ret, 3)]);
}

#[test]
fn tokens_carry_their_line() {
    let tokens = tokenize(b"cls\n\n  jp 0x200\nret");
    assert_eq!(
        tokens,
        vec![
            Token::Opcode(Mnemonic::Cls, 1),
            Token::Opcode(Mnemonic::Jp, 3),
            Token::ImmConst(0x200, 3),
            Token::Opcode(Mnemonic::Ret, 4),
        ]
    );
}

#[test]
fn comments_run_to_the_end_of_their_line() {
    let tokens = tokenize(b"; first\ncls ; clear, the screen\n;\nret ; v0 12");
    assert_eq!(
        tokens,
        vec![
            Token::Comment(1),
            Token::Opcode(Mnemonic::Cls, 2),
            Token::Comment(2),
            Token::Comment(3),
            Token::Opcode(Mnemonic::Ret, 4),
            Token::Comment(4),
        ]
    );
}

#[test]
fn a_word_that_runs_into_a_comment_is_dropped() {
    assert_eq!(tokenize(b"cls;x\nret"), vec![Token::Comment(1), Token::Opcode(Mnemonic::Ret, 2)]);
}

#[test]
fn tokenization_is_case_insensitive() {
    assert_eq!(tokenize(b"LD VA, 0XfF"), tokenize(b"ld va, 0xff"));
    assert_eq!(tokenize(b"Drw V0, vF, 0Xa"), tokenize(b"drw v0, VF, 0xA"));
    assert_eq!(
        tokenize(b"SKNP Vb [I] ST dT K f B i"),
        vec![
            Token::Opcode(Mnemonic::Sknp, 1),
            Token::Reg(Register::Vb, 1),
            Token::IVal(1),
            Token::St(1),
            Token::Dt(1),
            Token::K(1),
            Token::F(1),
            Token::B(1),
            Token::I(1),
        ]
    );
}

#[test]
fn hexadecimal_and_decimal_give_the_same_value() {
    assert_eq!(tokenize(b"0xFF"), vec![Token::ImmConst(255, 1)]);
    assert_eq!(tokenize(b"255"), vec![Token::ImmConst(255, 1)]);
    assert_eq!(tokenize(b"0xFF"), tokenize(b"255"));
}

#[test]
fn literals_have_their_value() {
    assert_eq!(Stream::create_token(b"0", 1), Some(Token::ImmConst(0, 1)));
    assert_eq!(Stream::create_token(b"007", 3), Some(Token::ImmConst(7, 3)));
    assert_eq!(Stream::create_token(b"65535", 1), Some(Token::ImmConst(65535, 1)));
    assert_eq!(Stream::create_token(b"0x0", 1), Some(Token::ImmConst(0, 1)));
    assert_eq!(Stream::create_token(b"0xabc", 1), Some(Token::ImmConst(0xabc, 1)));
    assert_eq!(Stream::create_token(b"0XABC", 1), Some(Token::ImmConst(0xabc, 1)));
    assert_eq!(Stream::create_token(b"0xffff", 9), Some(Token::ImmConst(0xffff, 9)));
    assert_eq!(Stream::create_token(b"0x0000000012", 1), Some(Token::ImmConst(0x12, 1)));
    assert_eq!(Stream::create_token(b"0000000000000000000012", 1), Some(Token::ImmConst(12, 1)));
}

#[test]
fn malformed_literals_give_no_token() {
    assert_eq!(Stream::create_token(b"12ab", 1), None);
    assert_eq!(Stream::create_token(b"1f", 1), None);
    assert_eq!(Stream::create_token(b"0x", 1), None);
    assert_eq!(Stream::create_token(b"0xg1", 1), None);
    assert_eq!(Stream::create_token(b"0x1g", 1), None);
    assert_eq!(Stream::create_token(b"0x12x", 1), None);
    assert_eq!(Stream::create_token(b"1x12", 1), None);
    assert_eq!(Stream::create_token(b"9v0", 1), None);
    assert_eq!(Stream::create_token(b"1-2", 1), None);
}

#[test]
fn literals_beyond_sixteen_bits_give_no_token() {
    assert_eq!(Stream::create_token(b"65536", 1), None);
    assert_eq!(Stream::create_token(b"0x10000", 1), None);
    assert_eq!(Stream::create_token(b"99999999999999999999999", 1), None);
    assert_eq!(Stream::create_token(b"0xfffffffffffffffffffff", 1), None);
}

#[test]
fn unknown_words_give_no_token() {
    assert_eq!(Stream::create_token(b"", 1), None);
    assert_eq!(Stream::create_token(b"vg", 1), None);
    assert_eq!(Stream::create_token(b"v10", 1), None);
    assert_eq!(Stream::create_token(b"v", 1), None);
    assert_eq!(Stream::create_token(b"[i", 1), None);
    assert_eq!(Stream::create_token(b"loop:", 1), None);
    assert_eq!(Stream::create_token(b"addx", 1), None);
    assert_eq!(Stream::create_token(b"ad", 1), None);
    assert_eq!(Stream::create_token(b"-1", 1), None);
    assert_eq!(Stream::create_token(&[0xff, 0xfe], 1), None);
    assert_eq!(Stream::create_token(&[0xe2, 0x84, 0xaa], 1), None);
}

#[test]
fn every_name_has_its_token() {
    let mnemonics = [
        ("add", Mnemonic::Add),
        ("and", Mnemonic::And),
        ("call", Mnemonic::Call),
        ("cls", Mnemonic::Cls),
        ("drw", Mnemonic::Drw),
        ("jp", Mnemonic::Jp),
        ("ld", Mnemonic::Ld),
        ("or", Mnemonic::Or),
        ("ret", Mnemonic::Ret),
        ("rnd", Mnemonic::Rnd),
        ("se", Mnemonic::Se),
        ("shl", Mnemonic::Shl),
        ("shr", Mnemonic::Shr),
        ("sknp", Mnemonic::Sknp),
        ("skp", Mnemonic::Skp),
        ("sne", Mnemonic::Sne),
        ("sub", Mnemonic::Sub),
        ("subn", Mnemonic::Subn),
        ("sys", Mnemonic::Sys),
        ("xor", Mnemonic::Xor),
    ];
    for (name, mnemonic) in mnemonics {
        assert_eq!(Stream::create_token(name.as_bytes(), 4), Some(Token::Opcode(mnemonic, 4)));
    }
    let registers = [
        ("v0", Register::V0),
        ("v1", Register::V1),
        ("v2", Register::V2),
        ("v3", Register::V3),
        ("v4", Register::V4),
        ("v5", Register::V5),
        ("v6", Register::V6),
        ("v7", Register::V7),
        ("v8", Register::V8),
        ("v9", Register::V9),
        ("va", Register::Va),
        ("vb", Register::Vb),
        ("vc", Register::Vc),
        ("vd", Register::Vd),
        ("ve", Register::Ve),
        ("vf", Register::Vf),
    ];
    for (name, register) in registers {
        assert_eq!(Stream::create_token(name.as_bytes(), 2), Some(Token::Reg(register, 2)));
    }
    assert_eq!(Stream::create_token(b"st", 1), Some(Token::St(1)));
    assert_eq!(Stream::create_token(b"dt", 1), Some(Token::Dt(1)));
    assert_eq!(Stream::create_token(b"i", 1), Some(Token::I(1)));
    assert_eq!(Stream::create_token(b"[i]", 1), Some(Token::IVal(1)));
    assert_eq!(Stream::create_token(b"f", 1), Some(Token::F(1)));
    assert_eq!(Stream::create_token(b"b", 1), Some(Token::B(1)));
    assert_eq!(Stream::create_token(b"k", 1), Some(Token::K(1)));
}

#[test]
fn byte_classes() {
    for b in [b',', b' ', b'\n', b'\t'] {
        assert!(Stream::is_separator(b));
    }
    for b in [b';', b'a', b'0', b'\r', 0u8, 0xffu8] {
        assert!(!Stream::is_separator(b));
    }
    for b in 0u8..=255 {
        assert_eq!(Stream::is_ascii_numeric(b), b.is_ascii_digit());
        assert_eq!(Stream::is_ascii_hex(b), b.is_ascii_hexdigit());
    }
}

#[test]
fn numeric_buffers_have_their_base() {
    assert_eq!(Stream::is_numeric(b"12"), Some(Radix::Decimal));
    assert_eq!(Stream::is_numeric(b"0"), Some(Radix::Decimal));
    assert_eq!(Stream::is_numeric(b"0x1f"), Some(Radix::Hexadecimal));
    assert_eq!(Stream::is_numeric(b"0x"), None);
    assert_eq!(Stream::is_numeric(b"1f"), None);
    assert_eq!(Stream::is_numeric(b"0x1g"), None);
    assert_eq!(Stream::is_numeric(b"x1"), None);
    assert_eq!(Stream::is_numeric(b""), None);
    assert_eq!(Stream::is_numeric(b"v0"), None);
}

#[test]
fn register_names_are_recognized() {
    for name in ["v0", "v9", "va", "vf", "st", "dt", "i", "[i]"] {
        assert!(Stream::is_register(name.as_bytes()));
    }
    for name in ["", "v", "vg", "v00", "f", "b", "k", "add", "[i", "i]", "0"] {
        assert!(!Stream::is_register(name.as_bytes()));
    }
}

#[test]
fn stream_hands_out_one_token_per_call() {
    let mut stream = Stream::new(b"cls\nbogus ld\n; note\n".to_vec());
    assert_eq!(stream.line(), 1);
    assert!(!stream.is_done());
    assert_eq!(stream.next_token(), Some(Token::Opcode(Mnemonic::Cls, 1)));
    assert_eq!(stream.line(), 2);
    assert_eq!(stream.next_token(), None);
    assert!(!stream.is_done());
    assert_eq!(stream.line(), 2);
    assert_eq!(stream.next_token(), Some(Token::Opcode(Mnemonic::Ld, 2)));
    assert_eq!(stream.line(), 3);
    assert_eq!(stream.next_token(), Some(Token::Comment(3)));
    assert_eq!(stream.line(), 4);
    assert!(stream.is_done());
    assert_eq!(stream.next_token(), None);
    assert!(stream.is_done());
    assert_eq!(stream.line(), 4);
}

#[test]
fn stream_at_trailing_separators_ends_without_a_token() {
    let mut stream = Stream::new(b"ret \n\n".to_vec());
    assert_eq!(stream.next_token(), Some(Token::Opcode(Mnemonic::Ret, 1)));
    assert!(!stream.is_done());
    assert_eq!(stream.next_token(), None);
    assert!(stream.is_done());
    assert_eq!(stream.line(), 3);
}

#[test]
fn unfinished_comment_ends_the_input() {
    let mut stream = Stream::new(b"; no newline".to_vec());
    assert_eq!(stream.next_token(), Some(Token::Comment(1)));
    assert!(stream.is_done());
    assert_eq!(stream.line(), 1);
}

#[test]
fn dropped_buffers_do_not_end_tokenization() {
    assert_eq!(
        tokenize(b"ld v0, 0xzz\nld v1, 2"),
        vec![
            Token::Opcode(Mnemonic::Ld, 1),
            Token::Reg(Register::V0, 1),
            Token::Opcode(Mnemonic::Ld, 2),
            Token::Reg(Register::V1, 2),
            Token::ImmConst(2, 2),
        ]
    );
}

#[test]
fn token_line_is_its_tag() {
    assert_eq!(Token::Opcode(Mnemonic::Add, 3).line(), 3);
    assert_eq!(Token::Reg(Register::V1, 4).line(), 4);
    assert_eq!(Token::ImmConst(9, 5).line(), 5);
    assert_eq!(Token::F(6).line(), 6);
    assert_eq!(Token::B(7).line(), 7);
    assert_eq!(Token::K(8).line(), 8);
    assert_eq!(Token::I(9).line(), 9);
    assert_eq!(Token::St(10).line(), 10);
    assert_eq!(Token::Dt(11).line(), 11);
    assert_eq!(Token::IVal(12).line(), 12);
    assert_eq!(Token::Comment(13).line(), 13);
}
