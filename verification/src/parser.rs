//! The instruction encoder: a state machine that takes tokens in order and
//! commits one machine word for each instruction that closes.

use vstd::prelude::*;
use crate::format::{
    awaits_operand, instruction_word, pack_addr, pack_byte, pack_draw, pack_reg, pack_reg_reg,
};
use crate::token::Operand;

pub use crate::lexer::Stream;
pub use crate::token::{Mnemonic, Register, Token};

verus! {

/// The encoder as a mathematical value: the open mnemonic, the operands it
/// has collected so far, and the words committed so far.
pub struct EncoderState {
    pub mnemonic: Option<Mnemonic>,
    pub operands: Seq<Operand>,
    pub words: Seq<u16>,
}

impl EncoderState {
    /// The state before any token: nothing open, nothing committed.
    pub open spec fn start() -> EncoderState {
        EncoderState { mnemonic: None, operands: Seq::empty(), words: Seq::empty() }
    }

    /// With no mnemonic open no operand is held; with one open, the operands
    /// held start one of its operand lists and do not complete it.
    pub open spec fn wf(self) -> bool {
        match self.mnemonic {
            None => self.operands.len() == 0,
            Some(m) => awaits_operand(m, self.operands),
        }
    }

    /// Whether an instruction is open.
    pub open spec fn is_open(self) -> bool {
        self.mnemonic is Some
    }

    /// The state after the open instruction `m` has come to hold `ops`: the
    /// word is committed if `ops` completes `m`, the instruction stays open if
    /// `ops` may still be completed, and there is no next state otherwise.
    pub open spec fn offer(self, m: Mnemonic, ops: Seq<Operand>) -> Option<EncoderState> {
        match instruction_word(m, ops) {
            Some(w) => Some(
                EncoderState { mnemonic: None, operands: Seq::empty(), words: self.words.push(w) },
            ),
            None => if awaits_operand(m, ops) {
                Some(EncoderState { mnemonic: Some(m), operands: ops, words: self.words })
            } else {
                None
            },
        }
    }

    /// The state after the token `t`, or `None` where `t` is illegal here. A
    /// comment changes nothing; a mnemonic is legal only while none is open;
    /// an operand is legal only where it extends or completes the open
    /// instruction.
    pub open spec fn step(self, t: Token) -> Option<EncoderState> {
        match t {
            Token::Comment(_) => Some(self),
            Token::Opcode(m, _) => if self.mnemonic is Some {
                None
            } else {
                self.offer(m, Seq::empty())
            },
            _ => match self.mnemonic {
                None => None,
                Some(m) => self.offer(m, self.operands.push(t.operand().unwrap())),
            },
        }
    }
}

/// What a run over a token sequence comes to: the state reached, and the
/// place of the first illegal token if there is one. The state is the one
/// before that token.
pub struct Run {
    pub state: EncoderState,
    pub stopped: Option<int>,
}

/// Runs the encoder from the state `s` over `tokens`, stopping at the first
/// illegal token.
pub open spec fn run_from(s: EncoderState, tokens: Seq<Token>) -> Run
    decreases tokens.len(),
{
    if tokens.len() == 0 {
        Run { state: s, stopped: None }
    } else {
        let before = run_from(s, tokens.drop_last());
        if before.stopped is Some {
            before
        } else {
            match before.state.step(tokens.last()) {
                Some(next) => Run { state: next, stopped: None },
                None => Run { state: before.state, stopped: Some(tokens.len() - 1) },
            }
        }
    }
}

/// Runs the encoder from the start over `tokens`, stopping at the first
/// illegal token.
pub open spec fn run(tokens: Seq<Token>) -> Run {
    run_from(EncoderState::start(), tokens)
}

/// A run that has stopped within the first `k` tokens is the run over all of
/// them.
pub proof fn lemma_run_stays_stopped(s: EncoderState, tokens: Seq<Token>, k: int)
    requires
        0 <= k <= tokens.len(),
        run_from(s, tokens.take(k)).stopped is Some,
    ensures
        run_from(s, tokens) == run_from(s, tokens.take(k)),
    decreases tokens.len() - k,
{
    if k == tokens.len() {
        assert(tokens.take(k) =~= tokens);
    } else {
        assert(tokens.take(k + 1).drop_last() =~= tokens.take(k));
        lemma_run_stays_stopped(s, tokens, k + 1);
    }
}

/// The high and low nibbles of the word of `m` with two registers, for the
/// mnemonics that take two registers and at most a byte in place of the
/// second.
spec fn pair_nibbles(m: Mnemonic) -> Option<(int, int)> {
    match m {
        Mnemonic::Se => Some((0x5, 0x0)),
        Mnemonic::Sne => Some((0x9, 0x0)),
        Mnemonic::Add => Some((0x8, 0x4)),
        Mnemonic::Sub => Some((0x8, 0x5)),
        Mnemonic::Subn => Some((0x8, 0x7)),
        Mnemonic::Or => Some((0x8, 0x1)),
        Mnemonic::And => Some((0x8, 0x2)),
        Mnemonic::Xor => Some((0x8, 0x3)),
        Mnemonic::Shr => Some((0x8, 0x6)),
        Mnemonic::Shl => Some((0x8, 0xE)),
        _ => None,
    }
}

/// The instruction encoder. It holds the open mnemonic, at most one pending
/// operand, the first register of a draw while its second one is pending, and
/// the words committed so far.
pub struct Encoder {
    current_mnemonic: Option<Mnemonic>,
    pending_operand: Option<Operand>,
    draw_first_register: Option<Register>,
    words: Vec<u16>,
}

impl View for Encoder {
    type V = EncoderState;

    closed spec fn view(&self) -> EncoderState {
        EncoderState {
            mnemonic: self.current_mnemonic,
            operands: match self.pending_operand {
                None => Seq::empty(),
                Some(p) => match self.draw_first_register {
                    None => Seq::empty().push(p),
                    Some(x) => Seq::empty().push(Operand::Reg(x)).push(p),
                },
            },
            words: self.words@,
        }
    }
}

impl Encoder {
    /// The encoder's invariant: its state is well formed, and a first draw
    /// register is parked only while a second operand is pending.
    pub closed spec fn wf(&self) -> bool {
        &&& self@.wf()
        &&& self.draw_first_register is Some ==> self.pending_operand is Some
    }

    /// A fresh encoder.
    pub fn new() -> (e: Encoder)
        ensures
            e.wf(),
            e@ == EncoderState::start(),
    {
        Encoder {
            current_mnemonic: None,
            pending_operand: None,
            draw_first_register: None,
            words: Vec::new(),
        }
    }

    /// The words committed so far.
    pub fn words(&self) -> (w: &Vec<u16>)
        ensures
            w@ == self@.words,
    {
        &self.words
    }

    /// Gives up the encoder for the words it has committed.
    pub fn into_words(self) -> (w: Vec<u16>)
        ensures
            w@ == self@.words,
    {
        self.words
    }

    /// Whether an instruction is open, still waiting for an operand.
    pub fn is_open(&self) -> (b: bool)
        ensures
            b == self@.is_open(),
    {
        self.current_mnemonic.is_some()
    }

    /// Commits `w` and closes the open instruction.
    fn commit(&mut self, w: u16)
        ensures
            final(self).wf(),
            final(self)@ == (EncoderState {
                mnemonic: None,
                operands: Seq::empty(),
                words: old(self)@.words.push(w),
            }),
    {
        self.words.push(w);
        self.current_mnemonic = None;
        self.pending_operand = None;
        self.draw_first_register = None;
    }

    /// Holds `o` as the first operand of the open instruction.
    fn hold(&mut self, o: Operand)
        requires
            old(self).wf(),
            old(self)@.mnemonic is Some,
            old(self)@.operands.len() == 0,
            awaits_operand(old(self)@.mnemonic.unwrap(), old(self)@.operands.push(o)),
        ensures
            final(self).wf(),
            final(self)@ == (EncoderState {
                mnemonic: old(self)@.mnemonic,
                operands: old(self)@.operands.push(o),
                words: old(self)@.words,
            }),
    {
        self.pending_operand = Some(o);
        self.draw_first_register = None;
    }

    /// Takes a mnemonic: legal only while no instruction is open. An
    /// instruction without operands closes at once.
    fn take_opcode(&mut self, m: Mnemonic, token: &Token) -> (r: Result<(), Token>)
        requires
            old(self).wf(),
            *token matches Token::Opcode(tm, _) && tm == m,
        ensures
            final(self).wf(),
            match old(self)@.step(*token) {
                Some(s) => r is Ok && final(self)@ == s,
                None => r == Err::<(), Token>(*token) && final(self)@ == old(self)@,
            },
    {
        if self.current_mnemonic.is_some() {
            return Err(*token);
        }
        match m {
            Mnemonic::Cls => {
                self.commit(0x00e0);
            },
            Mnemonic::Ret => {
                self.commit(0x00ee);
            },
            _ => {
                self.current_mnemonic = Some(m);
                self.pending_operand = None;
                self.draw_first_register = None;
            },
        }
        Ok(())
    }

    /// Takes the second register of a two-register instruction `n3 x y n0`,
    /// or holds the first.
    fn take_register_pair(&mut self, r: Register, n3: u16, n0: u16, token: &Token) -> (res: Result<
        (),
        Token,
    >)
        requires
            old(self).wf(),
            *token matches Token::Reg(tr, _) && tr == r,
            n3 < 0x10,
            n0 < 0x10,
            old(self)@.mnemonic matches Some(m) && pair_nibbles(m) == Some((n3 as int, n0 as int)),
        ensures
            final(self).wf(),
            match old(self)@.step(*token) {
                Some(s) => res is Ok && final(self)@ == s,
                None => res == Err::<(), Token>(*token) && final(self)@ == old(self)@,
            },
    {
        match self.pending_operand {
            None => {
                self.hold(Operand::Reg(r));
                Ok(())
            },
            Some(Operand::Reg(x)) => {
                let w = pack_reg_reg(n3, x, r, n0);
                self.commit(w);
                Ok(())
            },
            _ => Err(*token),
        }
    }

    /// Takes a register.
    fn take_register(&mut self, r: Register, token: &Token) -> (res: Result<(), Token>)
        requires
            old(self).wf(),
            *token matches Token::Reg(tr, _) && tr == r,
        ensures
            final(self).wf(),
            match old(self)@.step(*token) {
                Some(s) => res is Ok && final(self)@ == s,
                None => res == Err::<(), Token>(*token) && final(self)@ == old(self)@,
            },
    {
        let m = match self.current_mnemonic {
            None => {
                return Err(*token);
            },
            Some(m) => m,
        };
        match m {
            Mnemonic::Ld => match self.pending_operand {
                None => {
                    self.hold(Operand::Reg(r));
                    Ok(())
                },
                Some(Operand::Reg(x)) => {
                    let w = pack_reg_reg(0x8, x, r, 0x0);
                    self.commit(w);
                    Ok(())
                },
                Some(Operand::B) => {
                    let w = pack_reg(0xf, r, 0x33);
                    self.commit(w);
                    Ok(())
                },
                Some(Operand::F) => {
                    let w = pack_reg(0xf, r, 0x29);
                    self.commit(w);
                    Ok(())
                },
                Some(Operand::Dt) => {
                    let w = pack_reg(0xf, r, 0x15);
                    self.commit(w);
                    Ok(())
                },
                Some(Operand::St) => {
                    let w = pack_reg(0xf, r, 0x18);
                    self.commit(w);
                    Ok(())
                },
                Some(Operand::IVal) => {
                    let w = pack_reg(0xf, r, 0x55);
                    self.commit(w);
                    Ok(())
                },
                _ => Err(*token),
            },
            Mnemonic::Se => self.take_register_pair(r, 0x5, 0x0, token),
            Mnemonic::Sne => self.take_register_pair(r, 0x9, 0x0, token),
            Mnemonic::Add => self.take_register_pair(r, 0x8, 0x4, token),
            Mnemonic::Sub => self.take_register_pair(r, 0x8, 0x5, token),
            Mnemonic::Subn => self.take_register_pair(r, 0x8, 0x7, token),
            Mnemonic::Or => self.take_register_pair(r, 0x8, 0x1, token),
            Mnemonic::And => self.take_register_pair(r, 0x8, 0x2, token),
            Mnemonic::Xor => self.take_register_pair(r, 0x8, 0x3, token),
            Mnemonic::Shr => self.take_register_pair(r, 0x8, 0x6, token),
            Mnemonic::Shl => self.take_register_pair(r, 0x8, 0xe, token),
            Mnemonic::Rnd => match self.pending_operand {
                None => {
                    self.hold(Operand::Reg(r));
                    Ok(())
                },
                _ => Err(*token),
            },
            Mnemonic::Skp => match self.pending_operand {
                None => {
                    let w = pack_reg(0xe, r, 0x9e);
                    self.commit(w);
                    Ok(())
                },
                _ => Err(*token),
            },
            Mnemonic::Sknp => match self.pending_operand {
                None => {
                    let w = pack_reg(0xe, r, 0xa1);
                    self.commit(w);
                    Ok(())
                },
                _ => Err(*token),
            },
            Mnemonic::Drw => match self.pending_operand {
                None => {
                    self.hold(Operand::Reg(r));
                    Ok(())
                },
                Some(Operand::Reg(x)) => {
                    if self.draw_first_register.is_some() {
                        return Err(*token);
                    }
                    self.draw_first_register = Some(x);
                    self.pending_operand = Some(Operand::Reg(r));
                    Ok(())
                },
                _ => Err(*token),
            },
            Mnemonic::Jp => match self.pending_operand {
                None => {
                    if r.number() != 0 {
                        return Err(*token);
                    }
                    self.hold(Operand::Reg(r));
                    Ok(())
                },
                _ => Err(*token),
            },
            Mnemonic::Call | Mnemonic::Sys | Mnemonic::Cls | Mnemonic::Ret => Err(*token),
        }
    }

    /// Takes an immediate. It always closes the open instruction: its value
    /// is cut to the width of the field it fills.
    fn take_immediate(&mut self, value: u16, token: &Token) -> (res: Result<(), Token>)
        requires
            old(self).wf(),
            *token matches Token::ImmConst(tv, _) && tv == value,
        ensures
            final(self).wf(),
            match old(self)@.step(*token) {
                Some(s) => res is Ok && final(self)@ == s,
                None => res == Err::<(), Token>(*token) && final(self)@ == old(self)@,
            },
    {
        let m = match self.current_mnemonic {
            None => {
                return Err(*token);
            },
            Some(m) => m,
        };
        let n3: u16 = match m {
            Mnemonic::Ld => match self.pending_operand {
                Some(Operand::Reg(_)) => 0x6,
                Some(Operand::I) => {
                    let w = pack_addr(0xa, value);
                    self.commit(w);
                    return Ok(());
                },
                _ => {
                    return Err(*token);
                },
            },
            Mnemonic::Se => 0x3,
            Mnemonic::Sne => 0x4,
            Mnemonic::Add => 0x7,
            Mnemonic::Rnd => 0xc,
            Mnemonic::Drw => match (self.draw_first_register, self.pending_operand) {
                (Some(x), Some(Operand::Reg(y))) => {
                    let w = pack_draw(x, y, value);
                    self.commit(w);
                    return Ok(());
                },
                _ => {
                    return Err(*token);
                },
            },
            Mnemonic::Jp => match self.pending_operand {
                Some(Operand::Reg(x)) => {
                    if x.number() != 0 {
                        return Err(*token);
                    }
                    let w = pack_addr(0xb, value);
                    self.commit(w);
                    return Ok(());
                },
                None => {
                    let w = pack_addr(0x1, value);
                    self.commit(w);
                    return Ok(());
                },
                _ => {
                    return Err(*token);
                },
            },
            Mnemonic::Call => {
                if self.pending_operand.is_some() {
                    return Err(*token);
                }
                let w = pack_addr(0x2, value);
                self.commit(w);
                return Ok(());
            },
            _ => {
                return Err(*token);
            },
        };
        match self.pending_operand {
            Some(Operand::Reg(x)) => {
                let w = pack_byte(n3, x, value);
                self.commit(w);
                Ok(())
            },
            _ => Err(*token),
        }
    }

    /// Takes a pseudo-register, which only `LD` accepts: `K` and `[I]` after
    /// a register, the others and `[I]` in first place.
    fn take_pseudo(&mut self, o: Operand, token: &Token) -> (res: Result<(), Token>)
        requires
            old(self).wf(),
            token.operand() == Some(o),
            !(o is Reg),
            !(o is Imm),
        ensures
            final(self).wf(),
            match old(self)@.step(*token) {
                Some(s) => res is Ok && final(self)@ == s,
                None => res == Err::<(), Token>(*token) && final(self)@ == old(self)@,
            },
    {
        match self.current_mnemonic {
            Some(Mnemonic::Ld) => match self.pending_operand {
                None => match o {
                    Operand::K => Err(*token),
                    _ => {
                        self.hold(o);
                        Ok(())
                    },
                },
                Some(Operand::Reg(x)) => match o {
                    Operand::K => {
                        let w = pack_reg(0xf, x, 0x0a);
                        self.commit(w);
                        Ok(())
                    },
                    Operand::IVal => {
                        let w = pack_reg(0xf, x, 0x65);
                        self.commit(w);
                        Ok(())
                    },
                    _ => Err(*token),
                },
                _ => Err(*token),
            },
            _ => Err(*token),
        }
    }

    /// Feeds one token to the encoder. A legal token extends or closes the
    /// open instruction, or opens one; a closing token commits the
    /// instruction's word. An illegal token is handed back and leaves the
    /// encoder as it was, with the words committed before it.
    pub fn push(&mut self, token: &Token) -> (res: Result<(), Token>)
        requires
            old(self).wf(),
        ensures
            final(self).wf(),
            match old(self)@.step(*token) {
                Some(s) => res is Ok && final(self)@ == s,
                None => res == Err::<(), Token>(*token) && final(self)@ == old(self)@,
            },
    {
        match *token {
            Token::Comment(_) => Ok(()),
            Token::Opcode(m, _) => self.take_opcode(m, token),
            Token::Reg(r, _) => self.take_register(r, token),
            Token::ImmConst(v, _) => self.take_immediate(v, token),
            Token::K(_) => self.take_pseudo(Operand::K, token),
            Token::F(_) => self.take_pseudo(Operand::F, token),
            Token::B(_) => self.take_pseudo(Operand::B, token),
            Token::I(_) => self.take_pseudo(Operand::I, token),
            Token::IVal(_) => self.take_pseudo(Operand::IVal, token),
            Token::St(_) => self.take_pseudo(Operand::St, token),
            Token::Dt(_) => self.take_pseudo(Operand::Dt, token),
        }
    }
}

/// Encodes a token sequence as far as it is legal. Returns the words
/// committed, and the first illegal token if there is one: the words are then
/// those of the instructions closed before it.
pub fn encode_tokens(tokens: &Vec<Token>) -> (res: (Vec<u16>, Option<Token>))
    ensures
        res.0@ == run(tokens@).state.words,
        match res.1 {
            None => run(tokens@).stopped is None,
            Some(t) => run(tokens@).stopped matches Some(i) && 0 <= i < tokens.len() && t
                == tokens@[i],
        },
{
    let mut encoder = Encoder::new();
    let mut i: usize = 0;
    while i < tokens.len()
        invariant
            i <= tokens.len(),
            encoder.wf(),
            run(tokens@.take(i as int)) == (Run { state: encoder@, stopped: None }),
        decreases tokens.len() - i,
    {
        proof {
            assert(tokens@.take(i + 1).drop_last() =~= tokens@.take(i as int));
        }
        match encoder.push(&tokens[i]) {
            Ok(()) => {},
            Err(t) => {
                proof {
                    lemma_run_stays_stopped(EncoderState::start(), tokens@, i + 1);
                }
                return (encoder.into_words(), Some(t));
            },
        }
        i += 1;
    }
    proof {
        assert(tokens@.take(i as int) =~= tokens@);
    }
    (encoder.into_words(), None)
}

/// Encodes a token sequence into machine words, one per instruction.
///
/// Returns the words where every token is legal in its place; an instruction
/// still open at the end commits nothing. Otherwise returns the first illegal
/// token.
pub fn code_gen(tokens: &Vec<Token>) -> (res: Result<Vec<u16>, Token>)
    ensures
        match res {
            Ok(words) => run(tokens@).stopped is None && words@ == run(tokens@).state.words,
            Err(t) => run(tokens@).stopped matches Some(i) && 0 <= i < tokens.len() && t
                == tokens@[i],
        },
{
    match encode_tokens(tokens) {
        (words, None) => Ok(words),
        (_, Some(t)) => Err(t),
    }
}

} // verus!
