//! The assembler as a whole: source text to tokens, tokens to words, words to
//! bytes.

use vstd::prelude::*;
use crate::lexer::{newlines, tokenize, tokens_of};
use crate::parser::{code_gen, run};
use crate::token::Token;

verus! {

/// The bytes of `words` in program order, each word as two bytes, the more
/// significant one first.
pub open spec fn big_endian(words: Seq<u16>) -> Seq<u8> {
    Seq::new(
        2 * words.len(),
        |i: int|
            if i % 2 == 0 {
                (words[i / 2] / 0x100) as u8
            } else {
                (words[i / 2] % 0x100) as u8
            },
    )
}

/// Writes the words out as bytes: two per word, the more significant byte
/// first, with nothing before, between or after them.
pub fn emit(words: &Vec<u16>) -> (bytes: Vec<u8>)
    ensures
        bytes@ == big_endian(words@),
{
    let mut bytes: Vec<u8> = Vec::new();
    let mut i: usize = 0;
    while i < words.len()
        invariant
            i <= words.len(),
            bytes@.len() == 2 * i,
            forall|j: int| 0 <= j < 2 * i ==> bytes@[j] == big_endian(words@)[j],
        decreases words.len() - i,
    {
        let w: u16 = words[i];
        let hi: u8 = ((w & 0xff00) >> 8) as u8;
        let lo: u8 = (w & 0x00ff) as u8;
        proof {
            assert(hi == w / 0x100) by (bit_vector)
                requires
                    hi == ((w & 0xff00) >> 8) as u8,
            ;
            assert(lo == w % 0x100) by (bit_vector)
                requires
                    lo == (w & 0x00ff) as u8,
            ;
        }
        bytes.push(hi);
        bytes.push(lo);
        i += 1;
    }
    bytes
}

/// Assembles a source text into the bytes of its program.
///
/// Returns the bytes where every token of the text is legal in its place, and
/// the first illegal token otherwise. The text holds fewer than `u32::MAX`
/// newlines.
pub fn assemble(source: &[u8]) -> (res: Result<Vec<u8>, Token>)
    requires
        newlines(source@) < u32::MAX,
    ensures
        match res {
            Ok(bytes) => run(tokens_of(source@)).stopped is None && bytes@ == big_endian(
                run(tokens_of(source@)).state.words,
            ),
            Err(t) => run(tokens_of(source@)).stopped matches Some(i) && 0 <= i < tokens_of(
                source@,
            ).len() && t == tokens_of(source@)[i],
        },
{
    let tokens = tokenize(source);
    match code_gen(&tokens) {
        Ok(words) => Ok(emit(&words)),
        Err(t) => Err(t),
    }
}

} // verus!
