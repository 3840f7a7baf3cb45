//! What holds of every call of the lexer, proved of [`next_step`].

use crate::lexer::model::{
    closes, closing_quote, end_step, levels_above, line_start_step, newline_step, next_step,
    number_step, operator_step, pair_kind, plain_step, single_kind, string_step, word_step,
    LexerView, Step,
};
use crate::text::{digit, lemma_run_end, letter, run_end, text_of, ByteClass, QUOTE};
use crate::token::TokenType;
use vstd::prelude::*;

verus! {

/// The state after `calls` calls of the lexer.
pub open spec fn after(s: LexerView, calls: nat) -> LexerView
    decreases calls,
{
    if calls == 0 {
        s
    } else {
        after(next_step(s).next, (calls - 1) as nat)
    }
}

/// What is left to do in a state: a number that every call but the one that
/// yields `EOF` brings down.
pub open spec fn remaining(s: LexerView) -> int {
    4 * (s.source.len() - s.cursor) + 2 * s.indent_stack.len() + s.pending_dedents + if s.line_start {
        0int
    } else {
        1int
    }
}

/// Taking the blocks wider than `width` off a well-formed stack leaves a
/// well-formed stack whose innermost block is no wider than `width`.
pub proof fn lemma_levels_above(stack: Seq<nat>, width: nat)
    requires
        stack.len() >= 1,
        stack[0] == 0,
        forall|i: int, j: int| 0 <= i < j < stack.len() ==> stack[i] < stack[j],
    ensures
        levels_above(stack, width) < stack.len(),
        stack[stack.len() - levels_above(stack, width) - 1] <= width,
    decreases stack.len(),
{
    if stack.last() > width {
        assert(stack.len() > 1);
        lemma_levels_above(stack.drop_last(), width);
    }
}

/// A call leaves a well-formed state well-formed: the stack of open blocks
/// keeps its base level 0 and stays strictly increasing. It reads the same
/// source, and never moves the cursor back.
pub proof fn lemma_step_keeps_wf(s: LexerView)
    requires
        s.wf(),
    ensures
        next_step(s).next.wf(),
        next_step(s).next.source == s.source,
        next_step(s).next.cursor >= s.cursor,
{
    lemma_next_step(s);
}

/// Once a call has yielded `EOF`, every later call yields the same token, with
/// no text and at the same place, and leaves the state as it is.
pub proof fn lemma_end_of_input_repeats(s: LexerView, calls: nat)
    requires
        s.wf(),
        next_step(s).token.kind == TokenType::EOF,
    ensures
        next_step(s).token.literal == Seq::<char>::empty(),
        next_step(after(s, calls)).token == next_step(s).token,
        after(s, calls + 1) == next_step(s).next,
    decreases calls,
{
    lemma_next_step(s);
    let end = next_step(s).next;
    lemma_run_end(end.source, end.cursor as int, ByteClass::Blank);
    assert(end.at(end.cursor as int) == end);
    assert(next_step(end) == next_step(s));
    assert(after(s, calls + 1) == after(end, calls));
    if calls > 0 {
        lemma_end_of_input_repeats(end, (calls - 1) as nat);
    } else {
        assert(after(end, 0) == end);
    }
}

/// A block is closed by exactly one `Dedent`. Let a line open a block: it
/// stands in state `s`, and its blanks are wider than the innermost open
/// block. Let a later line stand in state `t`, with that block innermost,
/// and be as wide as the block that was innermost in `s`. Then `s` yields
/// an `Indent`, `t` yields a `Dedent` with none pending, and the open blocks
/// are again those of `s`, whatever the two widths are.
pub proof fn lemma_block_round_trip(s: LexerView, t: LexerView)
    requires
        s.wf(),
        s.line_start,
        s.pending_dedents == 0,
        !s.rest_is_empty(),
        s.blanks_uniform(),
        s.blanks_width() > s.indent_stack.last(),
        t.wf(),
        t.line_start,
        t.pending_dedents == 0,
        !t.rest_is_empty(),
        t.blanks_uniform(),
        t.indent_stack == next_step(s).next.indent_stack,
        t.blanks_width() == s.indent_stack.last(),
    ensures
        next_step(s).token.kind == TokenType::Indent,
        next_step(s).next.indent_stack == s.indent_stack.push(s.blanks_width()),
        next_step(t).token.kind == TokenType::Dedent,
        next_step(t).next.indent_stack == s.indent_stack,
        next_step(t).next.pending_dedents == 0,
        !next_step(t).next.line_start,
{
    let opened = s.indent_stack.push(s.blanks_width());
    assert(opened.drop_last() =~= s.indent_stack);
    assert(levels_above(opened, t.blanks_width()) == 1 + levels_above(
        s.indent_stack,
        t.blanks_width(),
    ));
    assert(levels_above(s.indent_stack, t.blanks_width()) == 0);
    assert(opened.take(opened.len() - 1) =~= s.indent_stack);
}

/// The longest operator wins: where the two bytes behind the blanks under
/// the cursor spell an operator, the token scanned there is that operator
/// with both bytes as its text.
pub proof fn lemma_longest_operator(s: LexerView, kind: TokenType)
    requires
        s.wf(),
        s.pending_dedents == 0,
        !s.line_start,
        s.blanks_end() + 1 < s.source.len(),
        pair_kind(s.source[s.blanks_end()], s.source[s.blanks_end() + 1]) == Some(kind),
    ensures
        next_step(s).token.kind == kind,
        next_step(s).token.literal == text_of(
            seq![s.source[s.blanks_end()], s.source[s.blanks_end() + 1]],
        ),
        next_step(s).next.cursor == s.blanks_end() + 2,
{
    let p = s.blanks_end();
    lemma_run_end(s.source, s.cursor as int, ByteClass::Blank);
    assert(s.source.subrange(p, p + 2) =~= seq![s.source[p], s.source[p + 1]]);
}

/// No operator of two bytes is split: a token whose kind is that of a
/// one-byte operator is the byte before the cursor it leaves, and that byte
/// and the one behind it spell no operator of two bytes.
pub proof fn lemma_operator_not_split(s: LexerView, byte: u8)
    requires
        s.wf(),
        single_kind(byte) == Some(next_step(s).token.kind),
    ensures
        s.cursor < next_step(s).next.cursor,
        s.source[next_step(s).next.cursor - 1] == byte,
        next_step(s).next.cursor < s.source.len() ==> pair_kind(
            byte,
            s.source[next_step(s).next.cursor as int],
        ) is None,
{
    lemma_next_step(s);
    assert(is_single(next_step(s).token.kind));
    let q = next_step(s).next.cursor;
    assert(single_kind(s.source[q - 1]) == single_kind(byte));
}

/// Every call but the one that yields `EOF` brings the end nearer, so that
/// the tokens before `EOF` are at most as many as `remaining` says at the
/// start.
pub proof fn lemma_progress(s: LexerView)
    requires
        s.wf(),
        next_step(s).token.kind != TokenType::EOF,
    ensures
        0 <= remaining(next_step(s).next) < remaining(s),
{
    lemma_next_step(s);
}

/// A string body that closes does so at a quote inside the text, at or
/// behind the offset at which the body starts.
proof fn lemma_closing_quote(src: Seq<u8>, i: int, triple: bool)
    requires
        0 <= i,
    ensures
        closing_quote(src, i, triple) is Some ==> i <= closing_quote(src, i, triple)->0 && closes(
            src,
            closing_quote(src, i, triple)->0,
            triple,
        ),
    decreases src.len() - i,
{
    if i < src.len() {
        lemma_closing_quote(src, i + 1, triple);
        if i + 1 < src.len() {
            lemma_closing_quote(src, i + 2, triple);
        }
    }
}

/// What `step` is when it scans a lexeme from the state `s`: it moves the
/// cursor forward inside the text and changes nothing else but the mark of a
/// line's start, which it sets for a `Newline` only.
spec fn scans(s: LexerView, step: Step) -> bool {
    &&& step.next == (LexerView {
        cursor: step.next.cursor,
        line_start: step.token.kind == TokenType::Newline,
        ..s
    })
    &&& s.cursor < step.next.cursor <= s.source.len()
    &&& step.token.kind != TokenType::EOF
    &&& step.token.kind != TokenType::Indent
    &&& step.token.kind != TokenType::Dedent
}

/// Each kind of lexeme is scanned as `scans` says, and of the operators only
/// the one-byte branch yields the kind of a one-byte operator.
proof fn lemma_lexemes(s: LexerView)
    requires
        s.wf(),
        s.cursor < s.source.len(),
    ensures
        letter(s.source[s.cursor as int]) ==> scans(s, word_step(s)) && !is_single(
            word_step(s).token.kind,
        ),
        digit(s.source[s.cursor as int]) ==> scans(s, number_step(s)) && !is_single(
            number_step(s).token.kind,
        ),
        scans(s, string_step(s, false)) && !is_single(string_step(s, false).token.kind),
        s.cursor + 1 < s.source.len() ==> scans(s, string_step(s, true)) && !is_single(
            string_step(s, true).token.kind,
        ),
        scans(s, newline_step(s)) && !is_single(newline_step(s).token.kind),
        scans(s, operator_step(s)),
        is_single(operator_step(s).token.kind) ==> {
            let q = operator_step(s).next.cursor;
            &&& q == s.cursor + 1
            &&& single_kind(s.source[s.cursor as int]) == Some(operator_step(s).token.kind)
            &&& q < s.source.len() ==> pair_kind(s.source[s.cursor as int], s.source[q as int])
                is None
        },
{
    let p = s.cursor as int;
    lemma_run_end(s.source, p, ByteClass::Word);
    lemma_run_end(s.source, p + 1, ByteClass::Word);
    lemma_run_end(s.source, p, ByteClass::Digit);
    lemma_run_end(s.source, p + 1, ByteClass::Digit);
    let whole = run_end(s.source, p, ByteClass::Digit);
    if whole < s.source.len() {
        lemma_run_end(s.source, whole + 1, ByteClass::Digit);
    }
    lemma_string(s, false);
    if s.cursor + 1 < s.source.len() {
        lemma_string(s, true);
    }
}

/// Whether `kind` is that of an operator or delimiter of one byte.
spec fn is_single(kind: TokenType) -> bool {
    exists|byte: u8| single_kind(byte) == Some(kind)
}

/// A string, closed or not, is scanned as `scans` says.
proof fn lemma_string(s: LexerView, formatted: bool)
    requires
        s.wf(),
        s.cursor + (if formatted {
            1int
        } else {
            0int
        }) < s.source.len(),
    ensures
        scans(s, string_step(s, formatted)),
        !is_single(string_step(s, formatted).token.kind),
{
    let open = s.cursor + (if formatted {
        1int
    } else {
        0int
    });
    let triple = open + 2 < s.source.len() && s.source[open + 1] == QUOTE
        && s.source[open + 2] == QUOTE;
    let body = if triple {
        open + 3
    } else {
        open + 1
    };
    lemma_closing_quote(s.source, body, triple);
    lemma_run_end(s.source, body, ByteClass::Line);
}

/// What a call does to a well-formed state, case by case.
proof fn lemma_next_step(s: LexerView)
    requires
        s.wf(),
    ensures
        next_step(s).next.wf(),
        next_step(s).next.source == s.source,
        next_step(s).next.cursor >= s.cursor,
        next_step(s).token.kind == TokenType::EOF ==> {
            &&& next_step(s).token == s.at(s.source.len() as int).mark(TokenType::EOF)
            &&& next_step(s).next == s.at(s.source.len() as int)
            &&& s.indent_stack.len() == 1
            &&& s.pending_dedents == 0
        },
        next_step(s).token.kind != TokenType::EOF ==> 0 <= remaining(next_step(s).next)
            < remaining(s),
        is_single(next_step(s).token.kind) ==> {
            let q = next_step(s).next.cursor;
            &&& s.cursor < q
            &&& single_kind(s.source[q - 1]) == Some(next_step(s).token.kind)
            &&& q < s.source.len() ==> pair_kind(s.source[q - 1], s.source[q as int]) is None
        },
{
    if s.pending_dedents > 0 {
        assert(!is_single(TokenType::Dedent));
    } else if s.line_start {
        lemma_line_start_step(s);
    } else {
        lemma_plain_step(s);
    }
}

/// What `plain_step` does to a well-formed state.
proof fn lemma_plain_step(s: LexerView)
    requires
        s.wf(),
    ensures
        plain_step(s).next.wf(),
        plain_step(s).next.source == s.source,
        plain_step(s).next.cursor >= s.cursor,
        plain_step(s).token.kind == TokenType::EOF ==> {
            &&& plain_step(s).token == s.at(s.source.len() as int).mark(TokenType::EOF)
            &&& plain_step(s).next == s.at(s.source.len() as int)
            &&& s.indent_stack.len() == 1
        },
        plain_step(s).token.kind != TokenType::EOF ==> 0 <= remaining(plain_step(s).next)
            < remaining(s),
        is_single(plain_step(s).token.kind) ==> {
            let q = plain_step(s).next.cursor;
            &&& s.cursor < q
            &&& single_kind(s.source[q - 1]) == Some(plain_step(s).token.kind)
            &&& q < s.source.len() ==> pair_kind(s.source[q - 1], s.source[q as int]) is None
        },
{
    lemma_run_end(s.source, s.cursor as int, ByteClass::Blank);
    let p = s.blanks_end();
    assert(!is_single(TokenType::EOF));
    assert(!is_single(TokenType::Newline));
    assert(!is_single(TokenType::Dedent));
    if p < s.source.len() {
        lemma_lexemes(s.at(p));
        lemma_run_end(s.source, p, ByteClass::Line);
        let q = run_end(s.source, p, ByteClass::Line);
        if q < s.source.len() {
            lemma_lexemes(s.at(q));
        }
    }
}

/// What `line_start_step` does to a well-formed state with no `Dedent`
/// pending.
proof fn lemma_line_start_step(s: LexerView)
    requires
        s.wf(),
        s.line_start,
        s.pending_dedents == 0,
    ensures
        line_start_step(s).next.wf(),
        line_start_step(s).next.source == s.source,
        line_start_step(s).next.cursor >= s.cursor,
        line_start_step(s).token.kind == TokenType::EOF ==> {
            &&& line_start_step(s).token == s.at(s.source.len() as int).mark(TokenType::EOF)
            &&& line_start_step(s).next == s.at(s.source.len() as int)
            &&& s.indent_stack.len() == 1
        },
        line_start_step(s).token.kind != TokenType::EOF ==> 0 <= remaining(
            line_start_step(s).next,
        ) < remaining(s),
        is_single(line_start_step(s).token.kind) ==> {
            let q = line_start_step(s).next.cursor;
            &&& s.cursor < q
            &&& single_kind(s.source[q - 1]) == Some(line_start_step(s).token.kind)
            &&& q < s.source.len() ==> pair_kind(s.source[q - 1], s.source[q as int]) is None
        },
{
    lemma_run_end(s.source, s.cursor as int, ByteClass::Blank);
    lemma_plain_step(s);
    lemma_levels_above(s.indent_stack, s.blanks_width());
    assert(!is_single(TokenType::Illegal));
    assert(!is_single(TokenType::Indent));
    assert(!is_single(TokenType::Dedent));
}

} // verus!
