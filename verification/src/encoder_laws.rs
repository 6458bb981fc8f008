//! What holds of the encoder on every token sequence.

use vstd::prelude::*;
use crate::format::{awaits_operand, instruction_word};
use crate::parser::{lemma_run_stays_stopped, run_from, EncoderState, Run};
use crate::token::{Mnemonic, Operand, Register, Token};

verus! {

/// A legal token leaves the encoder well formed: at most one mnemonic is
/// open, and the operands held belong to it.
pub proof fn lemma_step_keeps_wf(s: EncoderState, t: Token)
    requires
        s.wf(),
        s.step(t) is Some,
    ensures
        s.step(t).unwrap().wf(),
{
}

/// A run from a well-formed state ends in a well-formed state.
pub proof fn lemma_run_keeps_wf(s: EncoderState, tokens: Seq<Token>)
    requires
        s.wf(),
    ensures
        run_from(s, tokens).state.wf(),
    decreases tokens.len(),
{
    if tokens.len() > 0 {
        lemma_run_keeps_wf(s, tokens.drop_last());
        let before = run_from(s, tokens.drop_last());
        if before.stopped is None && before.state.step(tokens.last()) is Some {
            lemma_step_keeps_wf(before.state, tokens.last());
        }
    }
}

/// The run over the first `k + 1` tokens is the run over the first `k`,
/// followed by one step on the token at place `k`.
pub proof fn lemma_run_unfold(s: EncoderState, tokens: Seq<Token>, k: int)
    requires
        0 <= k < tokens.len(),
    ensures
        run_from(s, tokens.take(k + 1)) == {
            let before = run_from(s, tokens.take(k));
            if before.stopped is Some {
                before
            } else {
                match before.state.step(tokens[k]) {
                    Some(next) => Run { state: next, stopped: None },
                    None => Run { state: before.state, stopped: Some(k) },
                }
            }
        },
{
    assert(tokens.take(k + 1).drop_last() =~= tokens.take(k));
}

/// A run over two sequences in a row is the run over the first, and from
/// where that ends the run over the second, unless the first has stopped.
pub proof fn lemma_run_concat(s: EncoderState, a: Seq<Token>, b: Seq<Token>)
    ensures
        run_from(s, a + b) == {
            let first = run_from(s, a);
            if first.stopped is Some {
                first
            } else {
                let second = run_from(first.state, b);
                Run {
                    state: second.state,
                    stopped: match second.stopped {
                        Some(i) => Some(a.len() + i),
                        None => None,
                    },
                }
            }
        },
    decreases b.len(),
{
    if b.len() == 0 {
        assert(a + b =~= a);
    } else {
        assert((a + b).drop_last() =~= a + b.drop_last());
        lemma_run_concat(s, a, b.drop_last());
    }
}

/// The tokens `tokens` write the instruction `m` with the operands `ops`: the
/// mnemonic first, then one token for each operand, on any lines.
pub open spec fn writes_instruction(tokens: Seq<Token>, m: Mnemonic, ops: Seq<Operand>) -> bool {
    &&& tokens.len() == ops.len() + 1
    &&& tokens[0] matches Token::Opcode(tm, _) && tm == m
    &&& forall|i: int| 0 <= i < ops.len() ==> (#[trigger] tokens[i + 1]).operand() == Some(ops[i])
}

/// Every instruction of the format table encodes to exactly the word that
/// the table lists for it: fed to an encoder with no instruction open, its
/// tokens are all legal, commit that one word, and leave no instruction open.
pub proof fn lemma_instruction_encodes(
    s: EncoderState,
    m: Mnemonic,
    ops: Seq<Operand>,
    tokens: Seq<Token>,
)
    requires
        s.mnemonic is None,
        instruction_word(m, ops) is Some,
        writes_instruction(tokens, m, ops),
    ensures
        run_from(s, tokens) == (Run {
            state: EncoderState {
                mnemonic: None,
                operands: Seq::empty(),
                words: s.words.push(instruction_word(m, ops).unwrap()),
            },
            stopped: None,
        }),
{
    let n = ops.len() as int;
    assert(0 <= n <= 3);
    assert(tokens.take(n + 1) =~= tokens);
    assert(tokens.take(0) =~= Seq::<Token>::empty());
    let e = Seq::<Operand>::empty();
    lemma_run_unfold(s, tokens, 0);
    if n == 0 {
        assert(ops =~= e);
    } else {
        assert(tokens[1].operand() == Some(ops[0]));
        lemma_run_unfold(s, tokens, 1);
        let held = EncoderState { mnemonic: Some(m), operands: e, words: s.words };
        assert(run_from(s, tokens.take(1)) == Run { state: held, stopped: None });
        if n == 1 {
            assert(ops =~= e.push(ops[0]));
        } else {
            assert(tokens[2].operand() == Some(ops[1]));
            lemma_run_unfold(s, tokens, 2);
            let held1 = EncoderState {
                mnemonic: Some(m),
                operands: e.push(ops[0]),
                words: s.words,
            };
            assert(instruction_word(m, e.push(ops[0])) is None);
            assert(awaits_operand(m, e.push(ops[0])));
            assert(run_from(s, tokens.take(2)) == Run { state: held1, stopped: None });
            if n == 2 {
                assert(ops =~= e.push(ops[0]).push(ops[1]));
            } else {
                assert(tokens[3].operand() == Some(ops[2]));
                lemma_run_unfold(s, tokens, 3);
                let held2 = EncoderState {
                    mnemonic: Some(m),
                    operands: e.push(ops[0]).push(ops[1]),
                    words: s.words,
                };
                assert(instruction_word(m, e.push(ops[0]).push(ops[1])) is None);
                assert(awaits_operand(m, e.push(ops[0]).push(ops[1])));
                assert(run_from(s, tokens.take(3)) == Run { state: held2, stopped: None });
                assert(ops =~= e.push(ops[0]).push(ops[1]).push(ops[2]));
            }
        }
    }
}

/// Where a run has stopped, the place lies within the tokens, the tokens
/// before it are all legal, the token there is illegal, and the state is
/// the one reached before that token: no word is committed for the
/// instruction that the token belongs to.
pub proof fn lemma_stopped_run(s: EncoderState, tokens: Seq<Token>)
    requires
        run_from(s, tokens).stopped is Some,
    ensures
        ({
            let i = run_from(s, tokens).stopped.unwrap();
            &&& 0 <= i < tokens.len()
            &&& run_from(s, tokens.take(i)).stopped is None
            &&& run_from(s, tokens.take(i)).state.step(tokens[i]) is None
            &&& run_from(s, tokens).state == run_from(s, tokens.take(i)).state
        }),
    decreases tokens.len(),
{
    let before = run_from(s, tokens.drop_last());
    if before.stopped is Some {
        lemma_stopped_run(s, tokens.drop_last());
        let i = before.stopped.unwrap();
        assert(tokens.drop_last().take(i) =~= tokens.take(i));
    } else {
        assert(tokens.take(tokens.len() - 1) =~= tokens.drop_last());
    }
}

/// A run stops at place `i` exactly where the tokens before it are all legal
/// and the token there is illegal.
pub proof fn lemma_stops_at_first_illegal(s: EncoderState, tokens: Seq<Token>, i: int)
    requires
        0 <= i < tokens.len(),
    ensures
        run_from(s, tokens).stopped == Some(i) <==> run_from(s, tokens.take(i)).stopped is None
            && run_from(s, tokens.take(i)).state.step(tokens[i]) is None,
{
    if run_from(s, tokens).stopped == Some(i) {
        lemma_stopped_run(s, tokens);
    }
    if run_from(s, tokens.take(i)).stopped is None && run_from(s, tokens.take(i)).state.step(
        tokens[i],
    ) is None {
        lemma_run_unfold(s, tokens, i);
        lemma_run_stays_stopped(s, tokens, i + 1);
    }
}

/// Whether `ops` starts an operand list of `m` in the format table: some
/// operands after it, or none, complete an instruction.
pub open spec fn starts_instruction(m: Mnemonic, ops: Seq<Operand>) -> bool {
    exists|rest: Seq<Operand>| (#[trigger] instruction_word(m, ops + rest)) is Some
}

/// Operands that complete the open operand list `ops` of `m`.
pub open spec fn completion(m: Mnemonic, ops: Seq<Operand>) -> Seq<Operand> {
    let reg = Operand::Reg(Register::V0);
    let imm = Operand::Imm(0);
    match m {
        Mnemonic::Jp | Mnemonic::Rnd => seq![imm],
        Mnemonic::Drw => if ops.len() == 1 {
            seq![reg, imm]
        } else {
            seq![imm]
        },
        Mnemonic::Ld => if ops[0] == Operand::I {
            seq![imm]
        } else {
            seq![reg]
        },
        _ => seq![reg],
    }
}

/// With an instruction open, an operand is refused exactly where the
/// operands held, followed by it, start no operand list of the format table.
pub proof fn lemma_refused_iff_absent(s: EncoderState, t: Token)
    requires
        s.wf(),
        s.mnemonic is Some,
        t.operand() is Some,
    ensures
        s.step(t) is None <==> !starts_instruction(
            s.mnemonic.unwrap(),
            s.operands.push(t.operand().unwrap()),
        ),
{
    let m = s.mnemonic.unwrap();
    let ops = s.operands.push(t.operand().unwrap());
    assert(s.step(t) == s.offer(m, ops));
    if s.step(t) is Some {
        if instruction_word(m, ops) is Some {
            assert(ops + Seq::<Operand>::empty() =~= ops);
        } else {
            let rest = completion(m, ops);
            let full = ops + rest;
            assert(full.len() == ops.len() + rest.len());
            assert(forall|i: int| 0 <= i < ops.len() ==> full[i] == ops[i]);
            assert(forall|i: int| 0 <= i < rest.len() ==> full[ops.len() + i] == rest[i]);
            assert(instruction_word(m, full) is Some);
        }
    } else {
        assert forall|rest: Seq<Operand>| (#[trigger] instruction_word(m, ops + rest)) is None by {
            let full = ops + rest;
            if rest.len() == 0 {
                assert(full =~= ops);
            } else {
                assert(full.len() == ops.len() + rest.len());
                assert(forall|i: int| 0 <= i < ops.len() ==> full[i] == ops[i]);
            }
        }
    }
}

/// A mnemonic is refused exactly where an instruction is open.
pub proof fn lemma_opcode_refused_iff_open(s: EncoderState, t: Token)
    requires
        t is Opcode,
    ensures
        s.step(t) is None <==> s.mnemonic is Some,
{
}

/// With no instruction open, every operand is refused.
pub proof fn lemma_operand_needs_mnemonic(s: EncoderState, t: Token)
    requires
        s.mnemonic is None,
        t.operand() is Some,
    ensures
        s.step(t) is None,
{
}

/// The width of the field that an immediate fills where it follows the
/// operands `before` of `m`, as the number of values the field holds: a
/// nibble for a draw, an address for a jump, a call and a load of `I`, a
/// byte everywhere else.
pub open spec fn field_modulus(m: Mnemonic, before: Seq<Operand>) -> int {
    match m {
        Mnemonic::Drw => 0x10,
        Mnemonic::Jp | Mnemonic::Call => 0x1000,
        Mnemonic::Ld => if before.len() == 1 && before[0] == Operand::I {
            0x1000
        } else {
            0x100
        },
        _ => 0x100,
    }
}

/// An immediate is never refused for its value, and it is cut to the width
/// of its field: where one immediate completes an instruction, every other
/// one does, and two that agree modulo the field's width give the same word.
pub proof fn lemma_immediate_truncated(m: Mnemonic, before: Seq<Operand>, v: u16, w: u16)
    ensures
        instruction_word(m, before.push(Operand::Imm(v))) is Some <==> instruction_word(
            m,
            before.push(Operand::Imm(w)),
        ) is Some,
        awaits_operand(m, before.push(Operand::Imm(v))) <==> awaits_operand(
            m,
            before.push(Operand::Imm(w)),
        ),
        v as int % field_modulus(m, before) == w as int % field_modulus(m, before)
            ==> instruction_word(m, before.push(Operand::Imm(v))) == instruction_word(
            m,
            before.push(Operand::Imm(w)),
        ),
{
    let a = before.push(Operand::Imm(v));
    let b = before.push(Operand::Imm(w));
    assert(a.len() == b.len());
    assert(forall|i: int| 0 <= i < before.len() ==> a[i] == before[i] && b[i] == before[i]);
    assert(a[before.len() as int] == Operand::Imm(v));
    assert(b[before.len() as int] == Operand::Imm(w));
}

/// The tokens without the comments among them, in order.
pub open spec fn without_comments(tokens: Seq<Token>) -> Seq<Token>
    decreases tokens.len(),
{
    if tokens.len() == 0 {
        Seq::empty()
    } else if tokens.last() is Comment {
        without_comments(tokens.drop_last())
    } else {
        without_comments(tokens.drop_last()).push(tokens.last())
    }
}

/// Comments change nothing: with them or without them a run ends in the
/// same state, with the same words committed, and stops at the same token
/// if it stops.
pub proof fn lemma_comments_change_nothing(s: EncoderState, tokens: Seq<Token>)
    ensures
        run_from(s, without_comments(tokens)).state == run_from(s, tokens).state,
        run_from(s, without_comments(tokens)).stopped is Some <==> run_from(
            s,
            tokens,
        ).stopped is Some,
        run_from(s, tokens).stopped is Some ==> without_comments(tokens)[run_from(
            s,
            without_comments(tokens),
        ).stopped.unwrap()] == tokens[run_from(s, tokens).stopped.unwrap()],
    decreases tokens.len(),
{
    if tokens.len() > 0 {
        let front = tokens.drop_last();
        lemma_comments_change_nothing(s, front);
        if run_from(s, front).stopped is Some {
            lemma_stopped_run(s, front);
            lemma_stopped_run(s, without_comments(front));
        }
        if !(tokens.last() is Comment) {
            assert(without_comments(tokens).drop_last() =~= without_comments(front));
        }
    }
}

/// Two token sequences that differ at most in the lines of their tokens.
pub open spec fn same_but_lines(a: Seq<Token>, b: Seq<Token>) -> bool {
    &&& a.len() == b.len()
    &&& forall|i: int| 0 <= i < a.len() ==> (#[trigger] a[i]).at_line(0) == b[i].at_line(0)
}

/// The lines of the tokens change nothing: two sequences that differ only
/// in them end in the same state and stop at the same place.
pub proof fn lemma_lines_change_nothing(s: EncoderState, a: Seq<Token>, b: Seq<Token>)
    requires
        same_but_lines(a, b),
    ensures
        run_from(s, a) == run_from(s, b),
    decreases a.len(),
{
    if a.len() > 0 {
        assert(a.last().at_line(0) == b.last().at_line(0));
        assert(same_but_lines(a.drop_last(), b.drop_last())) by {
            assert forall|i: int| 0 <= i < a.drop_last().len() implies (
            #[trigger] a.drop_last()[i]).at_line(0) == b.drop_last()[i].at_line(0) by {
                assert(a[i].at_line(0) == b[i].at_line(0));
            }
        }
        lemma_lines_change_nothing(s, a.drop_last(), b.drop_last());
        let before = run_from(s, a.drop_last());
        assert(before.state.step(a.last()) == before.state.step(b.last()));
    }
}

} // verus!
