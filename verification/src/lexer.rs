//! The tokenizer: bytes of source text to tokens, one token per call.

use vstd::prelude::*;
use vstd::slice::{slice_subrange, slice_to_vec};
use vstd::string::StrSliceExecFns;
use crate::token::Operand;

pub use crate::parser::code_gen;
pub use crate::token::{Mnemonic, Register, Token};

verus! {

pub const COMMENT_CHAR: char = ';';

pub const NEWLINE_CHAR: char = '\n';

pub const COMMA_CHAR: char = ',';

pub const SPACE_CHAR: char = ' ';

pub const TAB_CHAR: char = '\t';

/// The base of a numeric literal.
#[derive(Debug, Copy, Clone, PartialEq, Eq, Structural)]
pub enum Radix {
    Decimal,
    Hexadecimal,
}

impl Radix {
    /// The number of digits of the base.
    pub open spec fn base(self) -> int {
        match self {
            Radix::Decimal => 10,
            Radix::Hexadecimal => 16,
        }
    }

    /// How many bytes of a literal stand before its digits: the two of `0x`
    /// for a hexadecimal literal, none for a decimal one.
    pub open spec fn prefix_len(self) -> int {
        match self {
            Radix::Decimal => 0,
            Radix::Hexadecimal => 2,
        }
    }
}

/// A separator ends the token before it and is dropped: comma, space, tab
/// and newline.
pub open spec fn separator(b: u8) -> bool {
    b as char == COMMA_CHAR || b as char == SPACE_CHAR || b as char == NEWLINE_CHAR || b as char
        == TAB_CHAR
}

/// An ASCII decimal digit.
pub open spec fn decimal_digit(b: u8) -> bool {
    48 <= b && b <= 57
}

/// An ASCII hexadecimal digit, in either case.
pub open spec fn hex_digit(b: u8) -> bool {
    (48 <= b && b <= 57) || (97 <= b && b <= 102) || (65 <= b && b <= 70)
}

/// Whether `b` is a digit of the base `radix`.
pub open spec fn digit_of(b: u8, radix: Radix) -> bool {
    match radix {
        Radix::Decimal => decimal_digit(b),
        Radix::Hexadecimal => hex_digit(b),
    }
}

/// What the digit `b` counts for: `0` to `9`, and `10` to `15` for the
/// letters `a` to `f` in either case.
pub open spec fn digit_value(b: u8) -> int {
    if 48 <= b && b <= 57 {
        b - 48
    } else if 97 <= b && b <= 102 {
        b - 87
    } else if 65 <= b && b <= 70 {
        b - 55
    } else {
        0
    }
}

/// The byte with an ASCII capital letter turned into its small letter.
pub open spec fn lower(b: u8) -> u8 {
    if 65 <= b && b <= 90 {
        (b + 32) as u8
    } else {
        b
    }
}

/// The bytes with every ASCII capital letter turned into its small letter.
pub open spec fn lowered(s: Seq<u8>) -> Seq<u8> {
    Seq::new(s.len(), |i: int| lower(s[i]))
}

/// The bytes read as characters, one for one.
pub open spec fn text(s: Seq<u8>) -> Seq<char> {
    Seq::new(s.len(), |i: int| s[i] as char)
}

/// Whether every byte of `s` is a digit of the base `radix`.
pub open spec fn all_digits(s: Seq<u8>, radix: Radix) -> bool {
    forall|i: int| 0 <= i < s.len() ==> digit_of(#[trigger] s[i], radix)
}

/// The number that the digits `s` write in the base `radix`, most
/// significant digit first.
pub open spec fn number(s: Seq<u8>, radix: Radix) -> int
    decreases s.len(),
{
    if s.len() == 0 {
        0
    } else {
        number(s.drop_last(), radix) * radix.base() + digit_value(s.last())
    }
}

/// Whether `s` starts with `0x`.
pub open spec fn hex_prefixed(s: Seq<u8>) -> bool {
    s.len() >= 2 && s[0] == 48 && s[1] == 120
}

/// The base of the well-formed literal `s`, or `None` where `s` is no
/// well-formed literal. A literal starts with a decimal digit. After `0x` it
/// is hexadecimal: at least one digit follows, and only hexadecimal digits.
/// Otherwise it is decimal and holds only decimal digits.
pub open spec fn radix_of(s: Seq<u8>) -> Option<Radix> {
    if s.len() == 0 || !decimal_digit(s[0]) {
        None
    } else if hex_prefixed(s) {
        if s.len() > 2 && all_digits(s.subrange(2, s.len() as int), Radix::Hexadecimal) {
            Some(Radix::Hexadecimal)
        } else {
            None
        }
    } else if all_digits(s, Radix::Decimal) {
        Some(Radix::Decimal)
    } else {
        None
    }
}

/// The value of the literal `s`: `Some` where `s` is well formed and its
/// value fits in sixteen bits.
pub open spec fn literal(s: Seq<u8>) -> Option<u16> {
    match radix_of(s) {
        Some(radix) => {
            let value = number(s.subrange(radix.prefix_len(), s.len() as int), radix);
            if value <= 0xFFFF {
                Some(value as u16)
            } else {
                None
            }
        },
        None => None,
    }
}

/// The register or pseudo-register that `w` names.
pub open spec fn register_named(w: Seq<char>) -> Option<Operand> {
    if w == "v0"@ {
        Some(Operand::Reg(Register::V0))
    } else if w == "v1"@ {
        Some(Operand::Reg(Register::V1))
    } else if w == "v2"@ {
        Some(Operand::Reg(Register::V2))
    } else if w == "v3"@ {
        Some(Operand::Reg(Register::V3))
    } else if w == "v4"@ {
        Some(Operand::Reg(Register::V4))
    } else if w == "v5"@ {
        Some(Operand::Reg(Register::V5))
    } else if w == "v6"@ {
        Some(Operand::Reg(Register::V6))
    } else if w == "v7"@ {
        Some(Operand::Reg(Register::V7))
    } else if w == "v8"@ {
        Some(Operand::Reg(Register::V8))
    } else if w == "v9"@ {
        Some(Operand::Reg(Register::V9))
    } else if w == "va"@ {
        Some(Operand::Reg(Register::Va))
    } else if w == "vb"@ {
        Some(Operand::Reg(Register::Vb))
    } else if w == "vc"@ {
        Some(Operand::Reg(Register::Vc))
    } else if w == "vd"@ {
        Some(Operand::Reg(Register::Vd))
    } else if w == "ve"@ {
        Some(Operand::Reg(Register::Ve))
    } else if w == "vf"@ {
        Some(Operand::Reg(Register::Vf))
    } else if w == "st"@ {
        Some(Operand::St)
    } else if w == "dt"@ {
        Some(Operand::Dt)
    } else if w == "i"@ {
        Some(Operand::I)
    } else if w == "[i]"@ {
        Some(Operand::IVal)
    } else {
        None
    }
}

/// The mnemonic that `w` names.
pub open spec fn mnemonic_named(w: Seq<char>) -> Option<Mnemonic> {
    if w == "add"@ {
        Some(Mnemonic::Add)
    } else if w == "and"@ {
        Some(Mnemonic::And)
    } else if w == "call"@ {
        Some(Mnemonic::Call)
    } else if w == "cls"@ {
        Some(Mnemonic::Cls)
    } else if w == "drw"@ {
        Some(Mnemonic::Drw)
    } else if w == "jp"@ {
        Some(Mnemonic::Jp)
    } else if w == "ld"@ {
        Some(Mnemonic::Ld)
    } else if w == "or"@ {
        Some(Mnemonic::Or)
    } else if w == "ret"@ {
        Some(Mnemonic::Ret)
    } else if w == "rnd"@ {
        Some(Mnemonic::Rnd)
    } else if w == "se"@ {
        Some(Mnemonic::Se)
    } else if w == "shl"@ {
        Some(Mnemonic::Shl)
    } else if w == "shr"@ {
        Some(Mnemonic::Shr)
    } else if w == "sknp"@ {
        Some(Mnemonic::Sknp)
    } else if w == "skp"@ {
        Some(Mnemonic::Skp)
    } else if w == "sne"@ {
        Some(Mnemonic::Sne)
    } else if w == "sub"@ {
        Some(Mnemonic::Sub)
    } else if w == "subn"@ {
        Some(Mnemonic::Subn)
    } else if w == "sys"@ {
        Some(Mnemonic::Sys)
    } else if w == "xor"@ {
        Some(Mnemonic::Xor)
    } else {
        None
    }
}

/// The single-letter pseudo-operand that `w` names.
pub open spec fn letter_named(w: Seq<char>) -> Option<Operand> {
    if w == "f"@ {
        Some(Operand::F)
    } else if w == "b"@ {
        Some(Operand::B)
    } else if w == "k"@ {
        Some(Operand::K)
    } else {
        None
    }
}

/// The token that stands for the operand `o` on `line`.
pub open spec fn operand_token(o: Operand, line: u32) -> Token {
    match o {
        Operand::Reg(r) => Token::Reg(r, line),
        Operand::Imm(v) => Token::ImmConst(v, line),
        Operand::F => Token::F(line),
        Operand::B => Token::B(line),
        Operand::K => Token::K(line),
        Operand::I => Token::I(line),
        Operand::St => Token::St(line),
        Operand::Dt => Token::Dt(line),
        Operand::IVal => Token::IVal(line),
    }
}

/// The token that the word `w` names on `line`: a register or
/// pseudo-register, a mnemonic, or one of the letters `f`, `b`, `k`.
pub open spec fn word_token(w: Seq<char>, line: u32) -> Option<Token> {
    match register_named(w) {
        Some(o) => Some(operand_token(o, line)),
        None => match mnemonic_named(w) {
            Some(m) => Some(Token::Opcode(m, line)),
            None => match letter_named(w) {
                Some(o) => Some(operand_token(o, line)),
                None => None,
            },
        },
    }
}

/// The token that the lower-case buffer `s` stands for on `line`. A buffer
/// that starts with a digit is a literal or nothing; any other is a name or
/// nothing.
pub open spec fn classify_lowered(s: Seq<u8>, line: u32) -> Option<Token> {
    if s.len() > 0 && decimal_digit(s[0]) {
        match literal(s) {
            Some(v) => Some(Token::ImmConst(v, line)),
            None => None,
        }
    } else {
        word_token(text(s), line)
    }
}

/// The token that `buffer` stands for on `line`, whatever the case of its
/// letters, or `None` where it stands for none.
pub open spec fn classify(buffer: Seq<u8>, line: u32) -> Option<Token> {
    classify_lowered(lowered(buffer), line)
}

/// The digits before any place of a digit string write no more than the
/// whole string does.
pub proof fn lemma_number_grows(s: Seq<u8>, radix: Radix, k: int)
    requires
        0 <= k <= s.len(),
    ensures
        0 <= number(s.take(k), radix) <= number(s, radix),
    decreases s.len() - k,
{
    lemma_number_nonnegative(s.take(k), radix);
    if k == s.len() {
        assert(s.take(k) =~= s);
    } else {
        assert(s.take(k + 1).drop_last() =~= s.take(k));
        lemma_number_grows(s, radix, k + 1);
        let n = number(s.take(k), radix);
        match radix {
            Radix::Decimal => {
                assert(n * 10 >= n);
            },
            Radix::Hexadecimal => {
                assert(n * 16 >= n);
            },
        }
    }
}

/// A digit string writes no negative number.
pub proof fn lemma_number_nonnegative(s: Seq<u8>, radix: Radix)
    ensures
        0 <= number(s, radix),
    decreases s.len(),
{
    if s.len() > 0 {
        lemma_number_nonnegative(s.drop_last(), radix);
        let n = number(s.drop_last(), radix);
        match radix {
            Radix::Decimal => {
                assert(n * 10 >= 0);
            },
            Radix::Hexadecimal => {
                assert(n * 16 >= 0);
            },
        }
    }
}

/// Turns an ASCII capital letter into its small letter.
pub fn to_lower(b: u8) -> (r: u8)
    ensures
        r == lower(b),
{
    if b >= 65 && b <= 90 {
        b + 32
    } else {
        b
    }
}

/// Copies the buffer with its ASCII capital letters turned into small ones.
pub fn to_lowercase(input: &[u8]) -> (out: Vec<u8>)
    ensures
        out@ == lowered(input@),
{
    let mut out: Vec<u8> = Vec::new();
    let mut i: usize = 0;
    while i < input.len()
        invariant
            i <= input.len(),
            out@.len() == i,
            forall|j: int| 0 <= j < i ==> out@[j] == lower(input@[j]),
        decreases input.len() - i,
    {
        out.push(to_lower(input[i]));
        i += 1;
    }
    out
}

/// Whether the buffer spells the word `w`.
fn is_word(buffer: &[u8], w: &str) -> (r: bool)
    ensures
        r == (text(buffer@) == w@),
{
    if buffer.len() != w.unicode_len() {
        return false;
    }
    let mut i: usize = 0;
    while i < buffer.len()
        invariant
            i <= buffer.len(),
            buffer.len() == w@.len(),
            forall|j: int| 0 <= j < i ==> text(buffer@)[j] == w@[j],
        decreases buffer.len() - i,
    {
        if buffer[i] as char != w.get_char(i) {
            assert(text(buffer@)[i as int] != w@[i as int]);
            return false;
        }
        i += 1;
    }
    assert(text(buffer@) =~= w@);
    true
}

/// Reads the digits `digits` in the base `radix`. Returns `None` where the
/// number does not fit in sixteen bits.
fn parse_digits(digits: &[u8], radix: Radix) -> (r: Option<u16>)
    requires
        all_digits(digits@, radix),
    ensures
        r == if number(digits@, radix) <= 0xFFFF {
            Some(number(digits@, radix) as u16)
        } else {
            None
        },
{
    let base: u32 = match radix {
        Radix::Decimal => 10,
        Radix::Hexadecimal => 16,
    };
    let mut value: u32 = 0;
    let mut i: usize = 0;
    while i < digits.len()
        invariant
            i <= digits.len(),
            all_digits(digits@, radix),
            base == radix.base(),
            value == number(digits@.take(i as int), radix),
            value <= 0xFFFF,
        decreases digits.len() - i,
    {
        let b = digits[i];
        let d: u32 = if b >= 97 {
            (b - 87) as u32
        } else if b >= 65 {
            (b - 55) as u32
        } else {
            (b - 48) as u32
        };
        proof {
            assert(digit_of(digits@[i as int], radix));
            assert(d == digit_value(b));
            assert(digits@.take(i + 1).drop_last() =~= digits@.take(i as int));
            assert(digits@.take(i + 1).last() == b);
        }
        value = value * base + d;
        if value > 0xFFFF {
            proof {
                lemma_number_grows(digits@, radix, i + 1);
            }
            return None;
        }
        i += 1;
    }
    proof {
        assert(digits@.take(i as int) =~= digits@);
    }
    Some(value as u16)
}

/// The first place at or after `pos` that holds no separator, or the end.
pub open spec fn skip_separators(s: Seq<u8>, pos: int) -> int
    decreases s.len() - pos,
{
    if 0 <= pos < s.len() && separator(s[pos]) {
        skip_separators(s, pos + 1)
    } else {
        pos
    }
}

/// The first place at or after `pos` that holds a separator or the comment
/// sign, or the end: where the word that starts at `pos` stops.
pub open spec fn word_end(s: Seq<u8>, pos: int) -> int
    decreases s.len() - pos,
{
    if 0 <= pos < s.len() && !separator(s[pos]) && s[pos] as char != COMMENT_CHAR {
        word_end(s, pos + 1)
    } else {
        pos
    }
}

/// The first place at or after `pos` that holds a newline, or the end.
pub open spec fn line_end(s: Seq<u8>, pos: int) -> int
    decreases s.len() - pos,
{
    if 0 <= pos < s.len() && s[pos] as char != NEWLINE_CHAR {
        line_end(s, pos + 1)
    } else {
        pos
    }
}

/// How many newlines `s` holds.
pub open spec fn newlines(s: Seq<u8>) -> int
    decreases s.len(),
{
    if s.len() == 0 {
        0
    } else {
        newlines(s.drop_last()) + if s.last() as char == NEWLINE_CHAR {
            1int
        } else {
            0int
        }
    }
}

/// The line that place `pos` of `s` lies on: one more than the newlines
/// before it.
pub open spec fn line_at(s: Seq<u8>, pos: int) -> int {
    1 + newlines(s.take(pos))
}

/// What one call of the tokenizer comes to: the token, if the buffer it read
/// stands for one, and the place where the next call starts.
pub struct Scan {
    pub token: Option<Token>,
    pub next: int,
}

/// One call of the tokenizer on `s` from `pos`. Separators are skipped; at
/// the end of input there is no token. Otherwise the word that starts there
/// runs to the next separator, comment sign or end. Before a comment sign the
/// word is dropped, and the comment, which runs through the end of its line,
/// is the token. Else the word is classified and the separator that ends it
/// is consumed. The token carries the line it starts on.
pub open spec fn scan(s: Seq<u8>, pos: int) -> Scan {
    let start = skip_separators(s, pos);
    if start >= s.len() {
        Scan { token: None, next: s.len() as int }
    } else {
        let line = line_at(s, start) as u32;
        let stop = word_end(s, start);
        if stop < s.len() && s[stop] as char == COMMENT_CHAR {
            let eol = line_end(s, stop);
            Scan {
                token: Some(Token::Comment(line)),
                next: if eol < s.len() {
                    eol + 1
                } else {
                    s.len() as int
                },
            }
        } else {
            Scan {
                token: classify(s.subrange(start, stop), line),
                next: if stop < s.len() {
                    stop + 1
                } else {
                    s.len() as int
                },
            }
        }
    }
}

/// The tokens of `s` from `pos` to the end, in order: what the calls of the
/// tokenizer yield until the input is used up, without the buffers that
/// stand for no token.
pub open spec fn tokens_from(s: Seq<u8>, pos: int) -> Seq<Token>
    decreases s.len() - pos,
{
    if 0 <= pos < s.len() {
        proof {
            lemma_scan_advances(s, pos);
        }
        let sc = scan(s, pos);
        match sc.token {
            Some(t) => seq![t] + tokens_from(s, sc.next),
            None => tokens_from(s, sc.next),
        }
    } else {
        Seq::empty()
    }
}

/// The tokens of the source text `s`.
pub open spec fn tokens_of(s: Seq<u8>) -> Seq<Token> {
    tokens_from(s, 0)
}

/// Skipping separators moves forward and stops within the input, at a byte
/// that is no separator.
pub proof fn lemma_skip_separators(s: Seq<u8>, pos: int)
    requires
        0 <= pos <= s.len(),
    ensures
        pos <= skip_separators(s, pos) <= s.len(),
        skip_separators(s, pos) < s.len() ==> !separator(s[skip_separators(s, pos)]),
        forall|i: int| pos <= i < skip_separators(s, pos) ==> separator(#[trigger] s[i]),
    decreases s.len() - pos,
{
    if pos < s.len() && separator(s[pos]) {
        lemma_skip_separators(s, pos + 1);
    }
}

/// A word stops within the input, at a separator or a comment sign, and holds
/// neither.
pub proof fn lemma_word_end(s: Seq<u8>, pos: int)
    requires
        0 <= pos <= s.len(),
    ensures
        pos <= word_end(s, pos) <= s.len(),
        word_end(s, pos) < s.len() ==> separator(s[word_end(s, pos)]) || s[word_end(s, pos)] as char
            == COMMENT_CHAR,
        forall|i: int|
            pos <= i < word_end(s, pos) ==> !separator(#[trigger] s[i]) && s[i] as char
                != COMMENT_CHAR,
    decreases s.len() - pos,
{
    if pos < s.len() && !separator(s[pos]) && s[pos] as char != COMMENT_CHAR {
        lemma_word_end(s, pos + 1);
    }
}

/// A line ends within the input, at its newline, and holds none before.
pub proof fn lemma_line_end(s: Seq<u8>, pos: int)
    requires
        0 <= pos <= s.len(),
    ensures
        pos <= line_end(s, pos) <= s.len(),
        line_end(s, pos) < s.len() ==> s[line_end(s, pos)] as char == NEWLINE_CHAR,
        forall|i: int| pos <= i < line_end(s, pos) ==> #[trigger] s[i] as char != NEWLINE_CHAR,
    decreases s.len() - pos,
{
    if pos < s.len() && s[pos] as char != NEWLINE_CHAR {
        lemma_line_end(s, pos + 1);
    }
}

/// A call of the tokenizer before the end of input uses up at least one byte
/// and stays within the input.
pub proof fn lemma_scan_advances(s: Seq<u8>, pos: int)
    requires
        0 <= pos < s.len(),
    ensures
        pos < scan(s, pos).next <= s.len(),
{
    lemma_skip_separators(s, pos);
    let start = skip_separators(s, pos);
    if start < s.len() {
        lemma_word_end(s, start);
        let stop = word_end(s, start);
        if stop < s.len() {
            lemma_line_end(s, stop);
        }
    }
}

/// Passing one byte adds one to the line where the byte is a newline, and
/// nothing otherwise.
pub proof fn lemma_line_step(s: Seq<u8>, pos: int)
    requires
        0 <= pos < s.len(),
    ensures
        line_at(s, pos + 1) == line_at(s, pos) + if s[pos] as char == NEWLINE_CHAR {
            1int
        } else {
            0int
        },
{
    assert(s.take(pos + 1).drop_last() =~= s.take(pos));
}

/// A place lies on a line from the first to the one after the last newline
/// of the text.
pub proof fn lemma_line_bounds(s: Seq<u8>, pos: int)
    requires
        0 <= pos <= s.len(),
    ensures
        1 <= line_at(s, pos) <= 1 + newlines(s),
        newlines(s) <= s.len(),
    decreases s.len() - pos,
{
    lemma_newlines_bounds(s.take(pos));
    lemma_newlines_bounds(s);
    if pos < s.len() {
        lemma_line_step(s, pos);
        lemma_line_bounds(s, pos + 1);
    } else {
        assert(s.take(pos) =~= s);
    }
}

/// A text holds no more newlines than bytes.
pub proof fn lemma_newlines_bounds(s: Seq<u8>)
    ensures
        0 <= newlines(s) <= s.len(),
    decreases s.len(),
{
    if s.len() > 0 {
        lemma_newlines_bounds(s.drop_last());
    }
}

/// The tokenizer's position in its input.
pub struct Cursor {
    pub input: Seq<u8>,
    pub pos: int,
}

/// A tokenizer over the bytes of a source text. It hands out one token per
/// call and counts lines from 1.
pub struct Stream {
    input: Vec<u8>,
    pos: usize,
    line: u32,
}

impl View for Stream {
    type V = Cursor;

    closed spec fn view(&self) -> Cursor {
        Cursor { input: self.input@, pos: self.pos as int }
    }
}

impl Stream {
    /// The tokenizer's invariant: its position lies within the input, and its
    /// line counter is the line of that position.
    pub closed spec fn wf(&self) -> bool {
        &&& self.pos <= self.input.len()
        &&& newlines(self.input@) < u32::MAX
        &&& self.line as int == line_at(self.input@, self.pos as int)
    }

    /// A tokenizer at the start of `input`, on line 1. The input holds fewer
    /// than `u32::MAX` newlines, so that the line counter cannot overflow.
    pub fn new(input: Vec<u8>) -> (stream: Stream)
        requires
            newlines(input@) < u32::MAX,
        ensures
            stream.wf(),
            stream@ == (Cursor { input: input@, pos: 0 }),
    {
        proof {
            assert(input@.take(0).len() == 0);
        }
        Stream { input: input, pos: 0, line: 1 }
    }

    /// Reads the next buffer and returns the token it stands for. Returns
    /// `None` at the end of input, and for a buffer that stands for no token:
    /// `is_done` tells the two apart.
    pub fn next_token(&mut self) -> (token: Option<Token>)
        requires
            old(self).wf(),
        ensures
            final(self).wf(),
            final(self)@.input == old(self)@.input,
            token == scan(old(self)@.input, old(self)@.pos).token,
            final(self)@.pos == scan(old(self)@.input, old(self)@.pos).next,
    {
        let len = self.input.len();
        let ghost s = self.input@;
        let ghost pos0 = self.pos as int;
        while self.pos < len && Stream::is_separator(self.input[self.pos])
            invariant
                self.input@ == s,
                len == s.len(),
                newlines(s) < u32::MAX,
                pos0 <= self.pos <= len,
                skip_separators(s, self.pos as int) == skip_separators(s, pos0),
                self.line as int == line_at(s, self.pos as int),
            decreases len - self.pos,
        {
            proof {
                lemma_line_step(s, self.pos as int);
                lemma_line_bounds(s, self.pos as int + 1);
            }
            if self.input[self.pos] as char == NEWLINE_CHAR {
                self.line += 1;
            }
            self.pos += 1;
        }
        if self.pos >= len {
            return None;
        }
        let start = self.pos;
        while self.pos < len && !Stream::is_separator(self.input[self.pos])
            && self.input[self.pos] as char != COMMENT_CHAR
            invariant
                self.input@ == s,
                len == s.len(),
                start <= self.pos <= len,
                word_end(s, self.pos as int) == word_end(s, start as int),
                self.line as int == line_at(s, self.pos as int),
                self.line as int == line_at(s, start as int),
            decreases len - self.pos,
        {
            proof {
                lemma_line_step(s, self.pos as int);
            }
            self.pos += 1;
        }
        if self.pos < len && self.input[self.pos] as char == COMMENT_CHAR {
            let line = self.line;
            let ghost stop = self.pos as int;
            while self.pos < len && self.input[self.pos] as char != NEWLINE_CHAR
                invariant
                    self.input@ == s,
                    len == s.len(),
                    stop <= self.pos <= len,
                    line_end(s, self.pos as int) == line_end(s, stop),
                    self.line as int == line_at(s, self.pos as int),
                    self.line == line,
                decreases len - self.pos,
            {
                proof {
                    lemma_line_step(s, self.pos as int);
                }
                self.pos += 1;
            }
            if self.pos < len {
                proof {
                    lemma_line_step(s, self.pos as int);
                    lemma_line_bounds(s, self.pos as int + 1);
                }
                self.pos += 1;
                self.line += 1;
            }
            return Some(Token::Comment(line));
        }
        let buffer = slice_subrange(self.input.as_slice(), start, self.pos);
        let token = Stream::create_token(buffer, self.line);
        if self.pos < len {
            proof {
                lemma_line_step(s, self.pos as int);
                lemma_line_bounds(s, self.pos as int + 1);
            }
            if self.input[self.pos] as char == NEWLINE_CHAR {
                self.line += 1;
            }
            self.pos += 1;
        }
        token
    }

    /// The line of the tokenizer's position: the line that the next byte
    /// lies on.
    pub fn line(&self) -> (line: u32)
        requires
            self.wf(),
        ensures
            line as int == line_at(self@.input, self@.pos),
    {
        self.line
    }

    /// Whether the input is used up.
    pub fn is_done(&self) -> (done: bool)
        requires
            self.wf(),
        ensures
            done == (self@.pos >= self@.input.len()),
    {
        self.pos >= self.input.len()
    }

    /// Classifies a buffer: returns the token it stands for on `line`, or
    /// `None` where it stands for none.
    pub fn create_token(input: &[u8], line: u32) -> (token: Option<Token>)
        ensures
            token == classify(input@, line),
    {
        let lowered = to_lowercase(input);
        let s = lowered.as_slice();
        if s.len() > 0 && Stream::is_ascii_numeric(s[0]) {
            proof {
                assert(s@.subrange(0, s@.len() as int) =~= s@);
            }
            return match Stream::is_numeric(s) {
                Some(Radix::Decimal) => match parse_digits(s, Radix::Decimal) {
                    Some(v) => Some(Token::ImmConst(v, line)),
                    None => None,
                },
                Some(Radix::Hexadecimal) => match parse_digits(
                    slice_subrange(s, 2, s.len()),
                    Radix::Hexadecimal,
                ) {
                    Some(v) => Some(Token::ImmConst(v, line)),
                    None => None,
                },
                None => None,
            };
        }
        if Stream::is_register(s) {
            return Stream::register_token(s, line);
        }
        Stream::mnemonic_token(s, line)
    }

    /// Whether `b` is a separator.
    pub fn is_separator(b: u8) -> (r: bool)
        ensures
            r == separator(b),
    {
        let c = b as char;
        c == COMMA_CHAR || c == SPACE_CHAR || c == NEWLINE_CHAR || c == TAB_CHAR
    }

    /// Whether the lower-case buffer names a register or one of the
    /// pseudo-registers `st`, `dt`, `i` and `[i]`.
    pub fn is_register(input: &[u8]) -> (r: bool)
        ensures
            r == register_named(text(input@)) is Some,
    {
        is_word(input, "v0") || is_word(input, "v1") || is_word(input, "v2") || is_word(
            input,
            "v3",
        ) || is_word(input, "v4") || is_word(input, "v5") || is_word(input, "v6") || is_word(
            input,
            "v7",
        ) || is_word(input, "v8") || is_word(input, "v9") || is_word(input, "va") || is_word(
            input,
            "vb",
        ) || is_word(input, "vc") || is_word(input, "vd") || is_word(input, "ve") || is_word(
            input,
            "vf",
        ) || is_word(input, "st") || is_word(input, "dt") || is_word(input, "i") || is_word(
            input,
            "[i]",
        )
    }

    /// The token of the register or pseudo-register that the lower-case
    /// buffer names.
    fn register_token(input: &[u8], line: u32) -> (token: Option<Token>)
        ensures
            token == match register_named(text(input@)) {
                Some(o) => Some(operand_token(o, line)),
                None => None,
            },
    {
        if is_word(input, "v0") {
            Some(Token::Reg(Register::V0, line))
        } else if is_word(input, "v1") {
            Some(Token::Reg(Register::V1, line))
        } else if is_word(input, "v2") {
            Some(Token::Reg(Register::V2, line))
        } else if is_word(input, "v3") {
            Some(Token::Reg(Register::V3, line))
        } else if is_word(input, "v4") {
            Some(Token::Reg(Register::V4, line))
        } else if is_word(input, "v5") {
            Some(Token::Reg(Register::V5, line))
        } else if is_word(input, "v6") {
            Some(Token::Reg(Register::V6, line))
        } else if is_word(input, "v7") {
            Some(Token::Reg(Register::V7, line))
        } else if is_word(input, "v8") {
            Some(Token::Reg(Register::V8, line))
        } else if is_word(input, "v9") {
            Some(Token::Reg(Register::V9, line))
        } else if is_word(input, "va") {
            Some(Token::Reg(Register::Va, line))
        } else if is_word(input, "vb") {
            Some(Token::Reg(Register::Vb, line))
        } else if is_word(input, "vc") {
            Some(Token::Reg(Register::Vc, line))
        } else if is_word(input, "vd") {
            Some(Token::Reg(Register::Vd, line))
        } else if is_word(input, "ve") {
            Some(Token::Reg(Register::Ve, line))
        } else if is_word(input, "vf") {
            Some(Token::Reg(Register::Vf, line))
        } else if is_word(input, "st") {
            Some(Token::St(line))
        } else if is_word(input, "dt") {
            Some(Token::Dt(line))
        } else if is_word(input, "i") {
            Some(Token::I(line))
        } else if is_word(input, "[i]") {
            Some(Token::IVal(line))
        } else {
            None
        }
    }

    /// The token of the mnemonic or single-letter pseudo-operand that the
    /// lower-case buffer names.
    fn mnemonic_token(input: &[u8], line: u32) -> (token: Option<Token>)
        ensures
            token == match mnemonic_named(text(input@)) {
                Some(m) => Some(Token::Opcode(m, line)),
                None => match letter_named(text(input@)) {
                    Some(o) => Some(operand_token(o, line)),
                    None => None,
                },
            },
    {
        if is_word(input, "add") {
            Some(Token::Opcode(Mnemonic::Add, line))
        } else if is_word(input, "and") {
            Some(Token::Opcode(Mnemonic::And, line))
        } else if is_word(input, "call") {
            Some(Token::Opcode(Mnemonic::Call, line))
        } else if is_word(input, "cls") {
            Some(Token::Opcode(Mnemonic::Cls, line))
        } else if is_word(input, "drw") {
            Some(Token::Opcode(Mnemonic::Drw, line))
        } else if is_word(input, "jp") {
            Some(Token::Opcode(Mnemonic::Jp, line))
        } else if is_word(input, "ld") {
            Some(Token::Opcode(Mnemonic::Ld, line))
        } else if is_word(input, "or") {
            Some(Token::Opcode(Mnemonic::Or, line))
        } else if is_word(input, "ret") {
            Some(Token::Opcode(Mnemonic::Ret, line))
        } else if is_word(input, "rnd") {
            Some(Token::Opcode(Mnemonic::Rnd, line))
        } else if is_word(input, "se") {
            Some(Token::Opcode(Mnemonic::Se, line))
        } else if is_word(input, "shl") {
            Some(Token::Opcode(Mnemonic::Shl, line))
        } else if is_word(input, "shr") {
            Some(Token::Opcode(Mnemonic::Shr, line))
        } else if is_word(input, "sknp") {
            Some(Token::Opcode(Mnemonic::Sknp, line))
        } else if is_word(input, "skp") {
            Some(Token::Opcode(Mnemonic::Skp, line))
        } else if is_word(input, "sne") {
            Some(Token::Opcode(Mnemonic::Sne, line))
        } else if is_word(input, "sub") {
            Some(Token::Opcode(Mnemonic::Sub, line))
        } else if is_word(input, "subn") {
            Some(Token::Opcode(Mnemonic::Subn, line))
        } else if is_word(input, "sys") {
            Some(Token::Opcode(Mnemonic::Sys, line))
        } else if is_word(input, "xor") {
            Some(Token::Opcode(Mnemonic::Xor, line))
        } else if is_word(input, "f") {
            Some(Token::F(line))
        } else if is_word(input, "b") {
            Some(Token::B(line))
        } else if is_word(input, "k") {
            Some(Token::K(line))
        } else {
            None
        }
    }

    /// Whether the lower-case buffer is a well-formed numeric literal, and in
    /// which base.
    pub fn is_numeric(input: &[u8]) -> (r: Option<Radix>)
        ensures
            r == radix_of(input@),
    {
        if input.len() < 1 {
            return None;
        }
        if !Stream::is_ascii_numeric(input[0]) {
            return None;
        }
        let hex = input.len() >= 2 && input[0] == 48 && input[1] == 120;
        let first: usize = if hex {
            2
        } else {
            0
        };
        if hex && input.len() == 2 {
            return None;
        }
        let ghost radix = if hex {
            Radix::Hexadecimal
        } else {
            Radix::Decimal
        };
        let ghost digits = input@.subrange(first as int, input.len() as int);
        let mut i: usize = first;
        while i < input.len()
            invariant
                first <= i <= input.len(),
                first == if hex {
                    2usize
                } else {
                    0usize
                },
                hex == hex_prefixed(input@),
                radix == if hex {
                    Radix::Hexadecimal
                } else {
                    Radix::Decimal
                },
                digits == input@.subrange(first as int, input.len() as int),
                forall|j: int| first <= j < i ==> digit_of(input@[j], radix),
            decreases input.len() - i,
        {
            let ok = if hex {
                Stream::is_ascii_hex(input[i])
            } else {
                Stream::is_ascii_numeric(input[i])
            };
            if !ok {
                proof {
                    assert(digits[i - first] == input@[i as int]);
                    assert(!digit_of(digits[i - first], radix));
                    assert(!digit_of(input@[i as int], radix));
                }
                return None;
            }
            i += 1;
        }
        proof {
            assert forall|j: int| 0 <= j < digits.len() implies digit_of(
                #[trigger] digits[j],
                radix,
            ) by {
                assert(digits[j] == input@[j + first]);
            }
            if !hex {
                assert(digits =~= input@);
            }
        }
        if hex {
            Some(Radix::Hexadecimal)
        } else {
            Some(Radix::Decimal)
        }
    }

    /// Whether `input` is an ASCII decimal digit.
    pub fn is_ascii_numeric(input: u8) -> (r: bool)
        ensures
            r == decimal_digit(input),
    {
        input >= 48 && input <= 57
    }

    /// Whether `input` is an ASCII hexadecimal digit.
    pub fn is_ascii_hex(input: u8) -> (r: bool)
        ensures
            r == hex_digit(input),
    {
        (input >= 48 && input <= 57) || ((input >= 97 && input <= 102) || (input >= 65 && input
            <= 70))
    }
}

/// Splits a source text into its tokens. Buffers that stand for no token are
/// dropped, and the tokenizer goes on after them. The text holds fewer than
/// `u32::MAX` newlines, so that the line counter cannot overflow.
pub fn tokenize(input: &[u8]) -> (tokens: Vec<Token>)
    requires
        newlines(input@) < u32::MAX,
    ensures
        tokens@ == tokens_of(input@),
{
    let mut stream = Stream::new(slice_to_vec(input));
    let mut tokens: Vec<Token> = Vec::new();
    while !stream.is_done()
        invariant
            stream.wf(),
            stream@.input == input@,
            0 <= stream@.pos <= input@.len(),
            tokens@ + tokens_from(input@, stream@.pos) == tokens_of(input@),
        decreases input@.len() - stream@.pos,
    {
        let ghost before = tokens@;
        let ghost pos = stream@.pos;
        proof {
            lemma_scan_advances(input@, pos);
        }
        match stream.next_token() {
            Some(t) => {
                tokens.push(t);
                proof {
                    assert(before.push(t) + tokens_from(input@, stream@.pos) =~= before + (seq![t]
                        + tokens_from(input@, stream@.pos)));
                }
            },
            None => {},
        }
    }
    proof {
        assert(tokens@ + Seq::<Token>::empty() =~= tokens@);
    }
    tokens
}

} // verus!
