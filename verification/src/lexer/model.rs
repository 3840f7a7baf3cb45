//! What the lexer does, as a function on mathematical values: from a state to
//! the token it yields and the state it is left in.

use crate::text::{
    column_of, digit, letter, line_of, run_end, text_of, ByteClass, AMPERSAND, AT, BACKSLASH, BANG,
    CARET, COLON, COMMA, DOT, EQUALS, GREATER, HASH, LBRACE, LBRACK, LESS, LOWER_F, LOWER_N,
    LOWER_T, LPAREN, MINUS, NEWLINE, PERCENT, PIPE, PLUS, QUOTE, RBRACE, RBRACK, RPAREN, SLASH,
    STAR, TAB, TILDE, UNDERSCORE,
};
use crate::token::{word_kind, TokenType, TokenView};
use vstd::prelude::*;

verus! {

/// The state of a lexer.
pub struct LexerView {
    /// The bytes of the source text.
    pub source: Seq<u8>,
    /// The offset of the next byte to read; the length of `source` at the end.
    pub cursor: nat,
    /// The widths of the open blocks, the outermost first.
    pub indent_stack: Seq<nat>,
    /// How many `Dedent` tokens are owed before anything else is scanned.
    pub pending_dedents: nat,
    /// Whether the token yielded last was a `Newline`.
    pub line_start: bool,
}

/// One call of the lexer: the token it yields and the state it leaves.
pub struct Step {
    pub token: TokenView,
    pub next: LexerView,
}

impl LexerView {
    /// The state of a lexer that has read nothing of `source` yet.
    pub open spec fn start(source: Seq<u8>) -> LexerView {
        LexerView {
            source,
            cursor: 0,
            indent_stack: seq![0nat],
            pending_dedents: 0,
            line_start: false,
        }
    }

    /// The cursor is inside the text or at its end, and the stack of open
    /// blocks starts with the base level 0 and grows strictly towards the top.
    pub open spec fn wf(self) -> bool {
        &&& self.cursor <= self.source.len()
        &&& self.indent_stack.len() >= 1
        &&& self.indent_stack[0] == 0
        &&& forall|i: int, j: int|
            0 <= i < j < self.indent_stack.len() ==> self.indent_stack[i] < self.indent_stack[j]
    }

    /// The byte under the cursor; `None` exactly at the end of the text.
    pub open spec fn current_char(self) -> Option<u8> {
        if self.cursor < self.source.len() {
            Some(self.source[self.cursor as int])
        } else {
            None
        }
    }

    /// The line of the cursor, counted from 1.
    pub open spec fn line(self) -> nat {
        line_of(self.source, self.cursor as int)
    }

    /// The column of the cursor, counted from 1.
    pub open spec fn column(self) -> nat {
        column_of(self.source, self.cursor as int)
    }

    /// This state with the cursor at `pos`.
    pub open spec fn at(self, pos: int) -> LexerView {
        LexerView { cursor: pos as nat, ..self }
    }

    /// This state with the cursor one byte further, unless it is at the end.
    pub open spec fn advance(self) -> LexerView {
        if self.cursor < self.source.len() {
            self.at(self.cursor as int + 1)
        } else {
            self
        }
    }

    /// Where the run of blanks under the cursor ends.
    pub open spec fn blanks_end(self) -> int {
        run_end(self.source, self.cursor as int, ByteClass::Blank)
    }

    /// How many blanks stand under the cursor.
    pub open spec fn blanks_width(self) -> nat {
        (self.blanks_end() - self.cursor) as nat
    }

    /// Whether the blanks under the cursor are all spaces or all tabs.
    pub open spec fn blanks_uniform(self) -> bool {
        uniform(self.source, self.cursor as int, self.blanks_end())
    }

    /// Whether nothing but a comment stands between the blanks under the
    /// cursor and the end of the line.
    pub open spec fn rest_is_empty(self) -> bool {
        let to = self.blanks_end();
        to >= self.source.len() || self.source[to] == NEWLINE || self.source[to] == HASH
    }

    /// The text of the bytes from `from` up to `to`.
    pub open spec fn lexeme(self, from: int, to: int) -> Seq<char> {
        text_of(self.source.subrange(from, to))
    }

    /// A token that stands at offset `pos`.
    pub open spec fn token_at(self, kind: TokenType, literal: Seq<char>, pos: int) -> TokenView {
        TokenView {
            kind,
            literal,
            line: line_of(self.source, pos),
            column: column_of(self.source, pos),
        }
    }

    /// A token without text that stands where the cursor is.
    pub open spec fn mark(self, kind: TokenType) -> TokenView {
        self.token_at(kind, Seq::empty(), self.cursor as int)
    }

    /// The step that yields a token of `kind` with the text `literal` for the
    /// bytes from the cursor up to `to`.
    pub open spec fn emit(self, kind: TokenType, literal: Seq<char>, to: int) -> Step {
        Step {
            token: self.token_at(kind, literal, self.cursor as int),
            next: LexerView { cursor: to as nat, line_start: false, ..self },
        }
    }
}

/// The kind of the operator spelled by the two bytes `a` and `b`, if any.
pub open spec fn pair_kind(a: u8, b: u8) -> Option<TokenType> {
    if a == STAR && b == STAR {
        Some(TokenType::Exponent)
    } else if a == PLUS && b == EQUALS {
        Some(TokenType::Increment)
    } else if a == MINUS && b == EQUALS {
        Some(TokenType::Decrement)
    } else if a == STAR && b == EQUALS {
        Some(TokenType::MultAssgn)
    } else if a == SLASH && b == EQUALS {
        Some(TokenType::DivAssgn)
    } else if a == PLUS && b == PLUS {
        Some(TokenType::PlusIncrement)
    } else if a == MINUS && b == MINUS {
        Some(TokenType::MinusDecrement)
    } else if a == EQUALS && b == EQUALS {
        Some(TokenType::Eq)
    } else if a == BANG && b == EQUALS {
        Some(TokenType::NotEq)
    } else if a == LESS && b == EQUALS {
        Some(TokenType::Le)
    } else if a == GREATER && b == EQUALS {
        Some(TokenType::Ge)
    } else if a == LESS && b == LESS {
        Some(TokenType::LShift)
    } else if a == GREATER && b == GREATER {
        Some(TokenType::RShift)
    } else {
        None
    }
}

/// The kind of the operator or delimiter spelled by the single byte `a`, if
/// any.
pub open spec fn single_kind(a: u8) -> Option<TokenType> {
    if a == EQUALS {
        Some(TokenType::Assign)
    } else if a == PLUS {
        Some(TokenType::Plus)
    } else if a == MINUS {
        Some(TokenType::Minus)
    } else if a == STAR {
        Some(TokenType::Asterisk)
    } else if a == SLASH {
        Some(TokenType::Slash)
    } else if a == PERCENT {
        Some(TokenType::Mod)
    } else if a == BANG {
        Some(TokenType::Bang)
    } else if a == AMPERSAND {
        Some(TokenType::Ampersand)
    } else if a == AT {
        Some(TokenType::At)
    } else if a == COMMA {
        Some(TokenType::Comma)
    } else if a == COLON {
        Some(TokenType::Colon)
    } else if a == PIPE {
        Some(TokenType::Pipe)
    } else if a == DOT {
        Some(TokenType::Dot)
    } else if a == CARET {
        Some(TokenType::Xor)
    } else if a == TILDE {
        Some(TokenType::Tilde)
    } else if a == LESS {
        Some(TokenType::Lt)
    } else if a == GREATER {
        Some(TokenType::Gt)
    } else if a == LPAREN {
        Some(TokenType::LParen)
    } else if a == RPAREN {
        Some(TokenType::RParen)
    } else if a == LBRACE {
        Some(TokenType::LBrace)
    } else if a == RBRACE {
        Some(TokenType::RBrace)
    } else if a == LBRACK {
        Some(TokenType::LBrack)
    } else if a == RBRACK {
        Some(TokenType::RBrack)
    } else {
        None
    }
}

/// An operator or delimiter at the cursor, the longest spelling first; a byte
/// that spells none is `Illegal` on its own.
pub open spec fn operator_step(s: LexerView) -> Step {
    let p = s.cursor as int;
    let pair = if p + 1 < s.source.len() {
        pair_kind(s.source[p], s.source[p + 1])
    } else {
        None
    };
    match pair {
        Some(kind) => s.emit(kind, s.lexeme(p, p + 2), p + 2),
        None => match single_kind(s.source[p]) {
            Some(kind) => s.emit(kind, s.lexeme(p, p + 1), p + 1),
            None => s.emit(TokenType::Illegal, s.lexeme(p, p + 1), p + 1),
        },
    }
}

/// An identifier, a keyword or a lone `_` at the cursor: the maximal run of
/// letters, digits and `_`.
pub open spec fn word_step(s: LexerView) -> Step {
    let p = s.cursor as int;
    let end = run_end(s.source, p, ByteClass::Word);
    let text = s.lexeme(p, end);
    let kind = if end == p + 1 && s.source[p] == UNDERSCORE {
        TokenType::Underscore
    } else {
        word_kind(text)
    };
    s.emit(kind, text, end)
}

/// A number at the cursor: the maximal run of digits is an `Int`; with a `.`
/// and at least one more digit behind it, a `Float`; with a `.` and no digit
/// behind it, `Illegal` up to and including the `.`.
pub open spec fn number_step(s: LexerView) -> Step {
    let p = s.cursor as int;
    let whole = run_end(s.source, p, ByteClass::Digit);
    if whole < s.source.len() && s.source[whole] == DOT {
        let end = run_end(s.source, whole + 1, ByteClass::Digit);
        if end > whole + 1 {
            s.emit(TokenType::Float, s.lexeme(p, end), end)
        } else {
            s.emit(TokenType::Illegal, s.lexeme(p, whole + 1), whole + 1)
        }
    } else {
        s.emit(TokenType::Int, s.lexeme(p, whole), whole)
    }
}

/// Whether the body of a string closes at offset `i`: with one quote, or,
/// for a triple-quoted string, with three in a row.
pub open spec fn closes(src: Seq<u8>, i: int, triple: bool) -> bool {
    &&& 0 <= i < src.len()
    &&& src[i] == QUOTE
    &&& triple ==> i + 2 < src.len() && src[i + 1] == QUOTE && src[i + 2] == QUOTE
}

/// Whether a backslash at offset `i` takes the byte behind it along: there
/// is such a byte, and in a single-line string it is not the newline.
pub open spec fn escapes(src: Seq<u8>, i: int, triple: bool) -> bool {
    &&& 0 <= i
    &&& i + 1 < src.len()
    &&& src[i] == BACKSLASH
    &&& triple || src[i + 1] != NEWLINE
}

/// The offset at which the string body that starts at `i` closes, or `None`
/// where the line (for a triple-quoted string: the text) ends before it does.
pub open spec fn closing_quote(src: Seq<u8>, i: int, triple: bool) -> Option<int>
    decreases src.len() - i,
{
    if i < 0 || i >= src.len() {
        None
    } else if !triple && src[i] == NEWLINE {
        None
    } else if escapes(src, i, triple) {
        closing_quote(src, i + 2, triple)
    } else if closes(src, i, triple) {
        Some(i)
    } else {
        closing_quote(src, i + 1, triple)
    }
}

/// What a backslash followed by `c` stands for: the escapes `\n`, `\t`,
/// `\"` and `\\` give one byte, anything else stays as written.
pub open spec fn escape_value(c: u8) -> Seq<u8> {
    if c == LOWER_N {
        seq![NEWLINE]
    } else if c == LOWER_T {
        seq![TAB]
    } else if c == QUOTE || c == BACKSLASH {
        seq![c]
    } else {
        seq![BACKSLASH, c]
    }
}

/// The payload of the string body `src[from..to]`, escapes resolved.
pub open spec fn unescaped(src: Seq<u8>, from: int, to: int) -> Seq<u8>
    decreases to - from,
{
    if from < 0 || from >= to || to > src.len() {
        Seq::empty()
    } else if src[from] == BACKSLASH && from + 1 < to {
        escape_value(src[from + 1]) + unescaped(src, from + 2, to)
    } else {
        seq![src[from]] + unescaped(src, from + 1, to)
    }
}

/// A string at the cursor, which stands on the opening quote, or, where
/// `formatted`, on the `f` before it. A string that closes yields its
/// payload; one that does not is `Illegal` and covers the rest of the line,
/// or the rest of the text where it opened with three quotes.
pub open spec fn string_step(s: LexerView, formatted: bool) -> Step {
    let p = s.cursor as int;
    let open = if formatted {
        p + 1
    } else {
        p
    };
    let triple = open + 2 < s.source.len() && s.source[open + 1] == QUOTE && s.source[open + 2]
        == QUOTE;
    let body = if triple {
        open + 3
    } else {
        open + 1
    };
    let kind = if formatted {
        TokenType::FString
    } else if triple {
        TokenType::DocString
    } else {
        TokenType::String
    };
    match closing_quote(s.source, body, triple) {
        Some(close) => {
            let end = if triple {
                close + 3
            } else {
                close + 1
            };
            s.emit(kind, text_of(unescaped(s.source, body, close)), end)
        },
        None => {
            let end = if triple {
                s.source.len() as int
            } else {
                run_end(s.source, body, ByteClass::Line)
            };
            s.emit(TokenType::Illegal, s.lexeme(p, end), end)
        },
    }
}

/// The newline under the cursor.
pub open spec fn newline_step(s: LexerView) -> Step {
    let p = s.cursor as int;
    Step {
        token: s.token_at(TokenType::Newline, s.lexeme(p, p + 1), p),
        next: LexerView { cursor: (p + 1) as nat, line_start: true, ..s },
    }
}

/// The end of the text. Blocks that are still open are closed first: after a
/// `Newline` without text, where the last line was left unfinished, all of
/// them at once, one `Dedent` now and the others pending. With no block open
/// the token is `EOF`, and the state stays as it is.
pub open spec fn end_step(s: LexerView) -> Step {
    if s.indent_stack.len() > 1 {
        if !s.line_start {
            Step { token: s.mark(TokenType::Newline), next: LexerView { line_start: true, ..s } }
        } else {
            Step {
                token: s.mark(TokenType::Dedent),
                next: LexerView {
                    indent_stack: s.indent_stack.take(1),
                    pending_dedents: (s.indent_stack.len() - 2) as nat,
                    ..s
                },
            }
        }
    } else {
        Step { token: s.mark(TokenType::EOF), next: s }
    }
}

/// The token that starts behind the blanks at the cursor. A comment, from
/// `#` to the end of its line, yields nothing of its own.
pub open spec fn plain_step(s: LexerView) -> Step {
    let p = s.blanks_end();
    if p >= s.source.len() {
        end_step(s.at(p))
    } else {
        let c = s.source[p];
        if c == NEWLINE {
            newline_step(s.at(p))
        } else if c == HASH {
            let q = run_end(s.source, p, ByteClass::Line);
            if q >= s.source.len() {
                end_step(s.at(q))
            } else {
                newline_step(s.at(q))
            }
        } else if c == LOWER_F && p + 1 < s.source.len() && s.source[p + 1] == QUOTE {
            string_step(s.at(p), true)
        } else if letter(c) {
            word_step(s.at(p))
        } else if digit(c) {
            number_step(s.at(p))
        } else if c == QUOTE {
            string_step(s.at(p), false)
        } else {
            operator_step(s.at(p))
        }
    }
}

/// How many of the open blocks are wider than `width`.
pub open spec fn levels_above(stack: Seq<nat>, width: nat) -> nat
    decreases stack.len(),
{
    if stack.len() > 0 && stack.last() > width {
        1 + levels_above(stack.drop_last(), width)
    } else {
        0
    }
}

/// Whether the bytes `src[from..to]` are all the same byte.
pub open spec fn uniform(src: Seq<u8>, from: int, to: int) -> bool {
    forall|i: int| from <= i < to ==> src[i] == src[from]
}

/// The first call on a line: the run of blanks at the cursor is measured
/// against the innermost open block.
///
/// A line that holds nothing but blanks and a comment opens and closes no
/// block. Otherwise a run that mixes spaces and tabs is `Illegal`; a wider
/// run opens a block and is its `Indent`; a run of the same width goes
/// unnoticed; a narrower run closes every block wider than it. Where it is
/// as wide as the innermost block left open, the first `Dedent` is yielded
/// and the others are pending; where it is not, the run is `Illegal`, and
/// every `Dedent` is pending.
pub open spec fn line_start_step(s: LexerView) -> Step {
    let from = s.cursor as int;
    let to = s.blanks_end();
    let width = s.blanks_width();
    let top = s.indent_stack.last();
    let run = s.lexeme(from, to);
    if s.rest_is_empty() {
        plain_step(s)
    } else if !s.blanks_uniform() {
        s.emit(TokenType::Illegal, run, to)
    } else if width > top {
        Step {
            token: s.token_at(TokenType::Indent, run, from),
            next: LexerView {
                cursor: to as nat,
                indent_stack: s.indent_stack.push(width),
                line_start: false,
                ..s
            },
        }
    } else if width == top {
        plain_step(s)
    } else {
        let closed = levels_above(s.indent_stack, width);
        let kept = s.indent_stack.take(s.indent_stack.len() - closed);
        if kept.last() == width {
            Step {
                token: s.at(to).mark(TokenType::Dedent),
                next: LexerView {
                    cursor: to as nat,
                    indent_stack: kept,
                    pending_dedents: (closed - 1) as nat,
                    line_start: false,
                    ..s
                },
            }
        } else {
            Step {
                token: s.token_at(TokenType::Illegal, run, from),
                next: LexerView {
                    cursor: to as nat,
                    indent_stack: kept,
                    pending_dedents: closed,
                    line_start: false,
                    ..s
                },
            }
        }
    }
}

/// One call of the lexer. Pending `Dedent` tokens come first; after a
/// `Newline` the line's indentation is looked at; in every other state the
/// next token is scanned.
pub open spec fn next_step(s: LexerView) -> Step {
    if s.pending_dedents > 0 {
        Step {
            token: s.mark(TokenType::Dedent),
            next: LexerView { pending_dedents: (s.pending_dedents - 1) as nat, ..s },
        }
    } else if s.line_start {
        line_start_step(s)
    } else {
        plain_step(s)
    }
}

} // verus!
