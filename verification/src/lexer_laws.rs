//! What holds of the tokenizer on every source text.

use vstd::prelude::*;
use crate::encoder_laws::{
    lemma_lines_change_nothing, lemma_run_concat, same_but_lines,
};
use crate::lexer::{
    classify, lemma_line_end, lemma_scan_advances, lemma_skip_separators, lemma_word_end, line_at,
    line_end, lower, lowered, scan, skip_separators, tokens_from, tokens_of, word_end,
    COMMENT_CHAR, NEWLINE_CHAR,
};
use crate::parser::{run, run_from, EncoderState, Run};
use crate::token::Token;

verus! {

/// Two texts that differ at most in the case of their letters.
pub open spec fn same_but_case(a: Seq<u8>, b: Seq<u8>) -> bool {
    lowered(a) == lowered(b)
}

/// Texts that differ only in case have the same length, and hold the same
/// byte wherever one of them holds a byte that is no letter.
proof fn lemma_same_but_case_bytes(a: Seq<u8>, b: Seq<u8>, i: int)
    requires
        same_but_case(a, b),
        0 <= i < a.len(),
    ensures
        a.len() == b.len(),
        lowered(a)[i] == lowered(b)[i],
        !(65 <= a[i] <= 90 || 97 <= a[i] <= 122) ==> b[i] == a[i],
        !(65 <= b[i] <= 90 || 97 <= b[i] <= 122) ==> b[i] == a[i],
{
    assert(lowered(a).len() == a.len());
    assert(lowered(b).len() == b.len());
    assert(lowered(a)[i] == lower(a[i]));
    assert(lowered(b)[i] == lower(b[i]));
}

/// Case does not move the end of a run of separators.
proof fn lemma_skip_separators_ignores_case(a: Seq<u8>, b: Seq<u8>, pos: int)
    requires
        same_but_case(a, b),
        0 <= pos <= a.len(),
    ensures
        skip_separators(a, pos) == skip_separators(b, pos),
    decreases a.len() - pos,
{
    if pos < a.len() {
        lemma_same_but_case_bytes(a, b, pos);
        lemma_skip_separators_ignores_case(a, b, pos + 1);
    } else {
        assert(lowered(a).len() == a.len());
        assert(lowered(b).len() == b.len());
    }
}

/// Case does not move the end of a word.
proof fn lemma_word_end_ignores_case(a: Seq<u8>, b: Seq<u8>, pos: int)
    requires
        same_but_case(a, b),
        0 <= pos <= a.len(),
    ensures
        word_end(a, pos) == word_end(b, pos),
    decreases a.len() - pos,
{
    if pos < a.len() {
        lemma_same_but_case_bytes(a, b, pos);
        lemma_word_end_ignores_case(a, b, pos + 1);
    } else {
        assert(lowered(a).len() == a.len());
        assert(lowered(b).len() == b.len());
    }
}

/// Case does not move the end of a line.
proof fn lemma_line_end_ignores_case(a: Seq<u8>, b: Seq<u8>, pos: int)
    requires
        same_but_case(a, b),
        0 <= pos <= a.len(),
    ensures
        line_end(a, pos) == line_end(b, pos),
    decreases a.len() - pos,
{
    if pos < a.len() {
        lemma_same_but_case_bytes(a, b, pos);
        lemma_line_end_ignores_case(a, b, pos + 1);
    } else {
        assert(lowered(a).len() == a.len());
        assert(lowered(b).len() == b.len());
    }
}

/// Case does not change the line of a place.
proof fn lemma_line_at_ignores_case(a: Seq<u8>, b: Seq<u8>, pos: int)
    requires
        same_but_case(a, b),
        0 <= pos <= a.len(),
    ensures
        line_at(a, pos) == line_at(b, pos),
    decreases pos,
{
    assert(lowered(a).len() == a.len());
    assert(lowered(b).len() == b.len());
    if pos > 0 {
        lemma_same_but_case_bytes(a, b, pos - 1);
        lemma_line_at_ignores_case(a, b, pos - 1);
        assert(a.take(pos).drop_last() =~= a.take(pos - 1));
        assert(b.take(pos).drop_last() =~= b.take(pos - 1));
    } else {
        assert(a.take(0) =~= b.take(0));
    }
}

/// A buffer stands for the same token in any case.
pub proof fn lemma_classify_ignores_case(a: Seq<u8>, b: Seq<u8>, line: u32)
    requires
        same_but_case(a, b),
    ensures
        classify(a, line) == classify(b, line),
{
}

/// One call of the tokenizer gives the same token and ends at the same place
/// on texts that differ only in case.
proof fn lemma_scan_ignores_case(a: Seq<u8>, b: Seq<u8>, pos: int)
    requires
        same_but_case(a, b),
        0 <= pos <= a.len(),
    ensures
        scan(a, pos) == scan(b, pos),
{
    assert(lowered(a).len() == a.len());
    assert(lowered(b).len() == b.len());
    lemma_skip_separators_ignores_case(a, b, pos);
    lemma_skip_separators(a, pos);
    let start = skip_separators(a, pos);
    if start < a.len() {
        lemma_line_at_ignores_case(a, b, start);
        lemma_word_end_ignores_case(a, b, start);
        lemma_word_end(a, start);
        let stop = word_end(a, start);
        if stop < a.len() {
            lemma_same_but_case_bytes(a, b, stop);
            lemma_line_end_ignores_case(a, b, stop);
        }
        assert(lowered(a.subrange(start, stop)) =~= lowered(b.subrange(start, stop))) by {
            assert forall|i: int| 0 <= i < stop - start implies lowered(a.subrange(start, stop))[i]
                == lowered(b.subrange(start, stop))[i] by {
                lemma_same_but_case_bytes(a, b, start + i);
            }
        }
    }
}

/// The tokens from any place on are the same on texts that differ only in
/// case.
proof fn lemma_tokens_from_ignore_case(a: Seq<u8>, b: Seq<u8>, pos: int)
    requires
        same_but_case(a, b),
        0 <= pos <= a.len(),
    ensures
        tokens_from(a, pos) == tokens_from(b, pos),
    decreases a.len() - pos,
{
    assert(lowered(a).len() == a.len());
    assert(lowered(b).len() == b.len());
    if pos < a.len() {
        lemma_scan_ignores_case(a, b, pos);
        lemma_scan_advances(a, pos);
        lemma_tokens_from_ignore_case(a, b, scan(a, pos).next);
    }
}

/// Tokenization is case-insensitive: two texts that differ only in the case
/// of their letters have the same tokens, on the same lines.
pub proof fn lemma_tokens_ignore_case(a: Seq<u8>, b: Seq<u8>)
    requires
        same_but_case(a, b),
    ensures
        tokens_of(a) == tokens_of(b),
{
    lemma_tokens_from_ignore_case(a, b, 0);
}

/// Two results of a call of the tokenizer that differ at most in the line
/// of the token.
pub open spec fn same_but_line(t: Option<Token>, u: Option<Token>) -> bool {
    match (t, u) {
        (Some(x), Some(y)) => x.at_line(0) == y.at_line(0),
        (None, None) => true,
        _ => false,
    }
}

/// A buffer stands for the same token on every line, but for the line that
/// the token carries.
pub proof fn lemma_classify_any_line(buffer: Seq<u8>, line: u32, other: u32)
    ensures
        same_but_line(classify(buffer, line), classify(buffer, other)),
        classify(buffer, line) matches Some(t) ==> t.line_number() == line,
{
}

/// After a text `a`, a run of separators ends where it ends in what follows,
/// and so do a word and a line.
proof fn lemma_ends_after_prefix(a: Seq<u8>, r: Seq<u8>, q: int)
    requires
        0 <= q <= r.len(),
    ensures
        skip_separators(a + r, a.len() + q) == a.len() + skip_separators(r, q),
        word_end(a + r, a.len() + q) == a.len() + word_end(r, q),
        line_end(a + r, a.len() + q) == a.len() + line_end(r, q),
    decreases r.len() - q,
{
    if q < r.len() {
        assert((a + r)[a.len() + q] == r[q]);
        lemma_ends_after_prefix(a, r, q + 1);
    }
}

/// One call of the tokenizer after a text `a` gives what it gives on what
/// follows alone, but for the line of the token, and ends at the same place
/// of it.
proof fn lemma_scan_after_prefix(a: Seq<u8>, r: Seq<u8>, q: int)
    requires
        0 <= q <= r.len(),
    ensures
        scan(a + r, a.len() + q).next == a.len() + scan(r, q).next,
        same_but_line(scan(a + r, a.len() + q).token, scan(r, q).token),
{
    let s = a + r;
    let n = a.len() as int;
    lemma_ends_after_prefix(a, r, q);
    lemma_skip_separators(r, q);
    let start = skip_separators(r, q);
    if start < r.len() {
        lemma_ends_after_prefix(a, r, start);
        lemma_word_end(r, start);
        let stop = word_end(r, start);
        assert(s.subrange(n + start, n + stop) =~= r.subrange(start, stop));
        lemma_classify_any_line(
            r.subrange(start, stop),
            line_at(s, n + start) as u32,
            line_at(r, start) as u32,
        );
        if stop < r.len() {
            assert(s[n + stop] == r[stop]);
            lemma_ends_after_prefix(a, r, stop);
        }
    }
}

/// The tokens after a text `a` are the tokens of what follows alone, but for
/// their lines.
proof fn lemma_tokens_after_prefix(a: Seq<u8>, r: Seq<u8>, q: int)
    requires
        0 <= q <= r.len(),
    ensures
        same_but_lines(tokens_from(a + r, a.len() + q), tokens_from(r, q)),
    decreases r.len() - q,
{
    if q < r.len() {
        lemma_scan_after_prefix(a, r, q);
        lemma_scan_advances(r, q);
        lemma_scan_advances(a + r, a.len() + q);
        lemma_tokens_after_prefix(a, r, scan(r, q).next);
    }
}

/// Within a text `a`, a run of separators, a word and a line end where they
/// end in `a` alone, whatever follows `a`, unless they reach the end of `a`.
proof fn lemma_ends_within_prefix(a: Seq<u8>, r: Seq<u8>, p: int)
    requires
        0 <= p <= a.len(),
    ensures
        skip_separators(a, p) < a.len() ==> skip_separators(a + r, p) == skip_separators(a, p),
        skip_separators(a, p) >= a.len() ==> skip_separators(a + r, p) == skip_separators(
            a + r,
            a.len() as int,
        ),
        word_end(a, p) < a.len() ==> word_end(a + r, p) == word_end(a, p),
        line_end(a, p) < a.len() ==> line_end(a + r, p) == line_end(a, p),
    decreases a.len() - p,
{
    if p < a.len() {
        assert((a + r)[p] == a[p]);
        lemma_ends_within_prefix(a, r, p + 1);
        lemma_skip_separators(a, p + 1);
        lemma_word_end(a, p + 1);
        lemma_line_end(a, p + 1);
    }
}

/// Where a text `a` is empty or ends with a newline, the tokens of `a` and
/// what follows it are the tokens of `a`, then the tokens after `a`.
proof fn lemma_tokens_within_prefix(a: Seq<u8>, r: Seq<u8>, p: int)
    requires
        a.len() == 0 || a.last() as char == NEWLINE_CHAR,
        0 <= p <= a.len(),
    ensures
        tokens_from(a + r, p) == tokens_from(a, p) + tokens_from(a + r, a.len() as int),
    decreases a.len() - p,
{
    let s = a + r;
    let n = a.len() as int;
    if p == n {
        assert(tokens_from(a, p) + tokens_from(s, n) =~= tokens_from(s, n));
    } else {
        lemma_ends_within_prefix(a, r, p);
        lemma_skip_separators(a, p);
        let start = skip_separators(a, p);
        if start >= n {
            assert(scan(a, p).next == n);
            assert(tokens_from(a, n) =~= Seq::<Token>::empty());
            assert(tokens_from(a, p) =~= Seq::<Token>::empty());
            assert(scan(s, p) == scan(s, n));
            if n >= s.len() {
                assert(tokens_from(s, s.len() as int) =~= Seq::<Token>::empty());
            }
            assert(tokens_from(s, p) == tokens_from(s, n));
            assert(tokens_from(a, p) + tokens_from(s, n) =~= tokens_from(s, n));
        } else {
            lemma_ends_within_prefix(a, r, start);
            lemma_word_end(a, start);
            let stop = word_end(a, start);
            assert(a.last() == a[n - 1]);
            assert(stop < n);
            assert(s.take(start) =~= a.take(start));
            assert(s.subrange(start, stop) =~= a.subrange(start, stop));
            assert(s[stop] == a[stop]);
            lemma_ends_within_prefix(a, r, stop);
            lemma_line_end(a, stop);
            assert(line_end(a, stop) < n);
            assert(scan(s, p) == scan(a, p));
            lemma_scan_advances(a, p);
            let next = scan(a, p).next;
            lemma_tokens_within_prefix(a, r, next);
            match scan(a, p).token {
                Some(t) => {
                    assert(seq![t] + (tokens_from(a, next) + tokens_from(s, n)) =~= (seq![t]
                        + tokens_from(a, next)) + tokens_from(s, n));
                },
                None => {},
            }
        }
    }
}

/// Where a text `a` is empty or ends with a newline, the tokens of `a` and
/// what follows it are the tokens of `a`, then those of what follows, but
/// for the lines of these.
pub proof fn lemma_tokens_of_lines(a: Seq<u8>, r: Seq<u8>)
    requires
        a.len() == 0 || a.last() as char == NEWLINE_CHAR,
    ensures
        tokens_of(a + r) == tokens_of(a) + tokens_from(a + r, a.len() as int),
        same_but_lines(tokens_from(a + r, a.len() as int), tokens_of(r)),
{
    lemma_tokens_within_prefix(a, r, 0);
    lemma_tokens_after_prefix(a, r, 0);
}

/// A line that is blank or holds nothing but a comment: it ends with its
/// only newline, and nothing but separators stands before the end or the
/// comment sign.
pub open spec fn is_filler_line(l: Seq<u8>) -> bool {
    &&& l.len() > 0
    &&& line_end(l, 0) == l.len() - 1
    &&& skip_separators(l, 0) == l.len() || l[skip_separators(l, 0)] as char == COMMENT_CHAR
}

/// The end of a line is the same from any place of the line.
proof fn lemma_line_end_from(l: Seq<u8>, p: int, q: int)
    requires
        0 <= p <= q <= line_end(l, p),
        q <= l.len(),
    ensures
        line_end(l, q) == line_end(l, p),
    decreases q - p,
{
    if p < q {
        lemma_line_end_from(l, p + 1, q);
    }
}

/// The last line of a text, without a newline, that is blank or holds
/// nothing but a comment.
pub open spec fn is_filler_tail(l: Seq<u8>) -> bool {
    &&& line_end(l, 0) == l.len()
    &&& skip_separators(l, 0) == l.len() || l[skip_separators(l, 0)] as char == COMMENT_CHAR
}

/// A blank or comment-only line has no token but at most one comment.
pub proof fn lemma_filler_line_tokens(l: Seq<u8>)
    requires
        is_filler_line(l) || is_filler_tail(l),
    ensures
        is_filler_line(l) ==> l.last() as char == NEWLINE_CHAR,
        tokens_of(l).len() <= 1,
        forall|i: int| 0 <= i < tokens_of(l).len() ==> #[trigger] tokens_of(l)[i] is Comment,
{
    lemma_line_end(l, 0);
    lemma_skip_separators(l, 0);
    let start = skip_separators(l, 0);
    assert(tokens_from(l, l.len() as int) =~= Seq::<Token>::empty());
    if start < l.len() {
        lemma_line_end_from(l, 0, start);
        assert(word_end(l, start) == start);
        assert(scan(l, 0).next == l.len());
    }
}

/// Comment-only and blank lines never change the words: a text with such a
/// line put in at the start of any of its lines assembles to the same words,
/// and its encoding fails exactly if the encoding of the text without the
/// line does.
pub proof fn lemma_filler_line_changes_nothing(a: Seq<u8>, l: Seq<u8>, b: Seq<u8>)
    requires
        a.len() == 0 || a.last() as char == NEWLINE_CHAR,
        is_filler_line(l),
    ensures
        run(tokens_of(a + l + b)).state == run(tokens_of(a + b)).state,
        run(tokens_of(a + l + b)).stopped is Some <==> run(tokens_of(a + b)).stopped is Some,
{
    assert(a + l + b =~= a + (l + b));
    lemma_filler_line_tokens(l);
    lemma_tokens_of_lines(a, l + b);
    lemma_tokens_of_lines(l, b);
    lemma_tokens_of_lines(a, b);
    let with_line = tokens_from(a + (l + b), a.len() as int);
    let after_line = tokens_from(l + b, l.len() as int);
    let without_line = tokens_from(a + b, a.len() as int);
    let start = EncoderState::start();
    lemma_run_concat(start, tokens_of(a), with_line);
    lemma_run_concat(start, tokens_of(a), without_line);
    let first = run_from(start, tokens_of(a));
    if first.stopped is None {
        let s = first.state;
        lemma_lines_change_nothing(s, with_line, tokens_of(l + b));
        lemma_run_concat(s, tokens_of(l), after_line);
        lemma_comments_only(s, tokens_of(l));
        lemma_lines_change_nothing(s, after_line, tokens_of(b));
        lemma_lines_change_nothing(s, without_line, tokens_of(b));
    }
}

/// A comment-only or blank last line, without a newline, never changes the
/// words: a text with such a line after its last newline assembles as the
/// text without it does, and fails at the same token if it fails.
pub proof fn lemma_filler_tail_changes_nothing(a: Seq<u8>, l: Seq<u8>)
    requires
        a.len() == 0 || a.last() as char == NEWLINE_CHAR,
        is_filler_tail(l),
    ensures
        run(tokens_of(a + l)) == run(tokens_of(a)),
{
    lemma_filler_line_tokens(l);
    lemma_tokens_of_lines(a, l);
    let tail = tokens_from(a + l, a.len() as int);
    let start = EncoderState::start();
    lemma_run_concat(start, tokens_of(a), tail);
    let first = run_from(start, tokens_of(a));
    if first.stopped is None {
        assert forall|i: int| 0 <= i < tail.len() implies (#[trigger] tail[i]) is Comment by {
            assert(tail[i].at_line(0) == tokens_of(l)[i].at_line(0));
            assert(tokens_of(l)[i] is Comment);
        }
        lemma_comments_only(first.state, tail);
    }
}

/// A run over comments alone changes nothing and does not stop.
proof fn lemma_comments_only(s: EncoderState, tokens: Seq<Token>)
    requires
        forall|i: int| 0 <= i < tokens.len() ==> #[trigger] tokens[i] is Comment,
    ensures
        run_from(s, tokens) == (Run { state: s, stopped: None }),
    decreases tokens.len(),
{
    if tokens.len() > 0 {
        assert(tokens.last() == tokens[tokens.len() - 1]);
        assert forall|i: int| 0 <= i < tokens.drop_last().len() implies (
        #[trigger] tokens.drop_last()[i]) is Comment by {
            assert(tokens[i] is Comment);
        }
        lemma_comments_only(s, tokens.drop_last());
    }
}

} // verus!
