//! The scanner: a cursor over the source bytes, the stack of open blocks, and
//! the operation that yields one token per call.

pub mod laws;
pub mod model;

use crate::lexer::model::{
    closes, closing_quote, end_step, escape_value, escapes, levels_above, line_start_step,
    newline_step, next_step, number_step, operator_step, pair_kind, plain_step, single_kind,
    string_step, unescaped, uniform, word_step, LexerView, Step,
};
use crate::text::{
    is_digit, is_letter, lemma_position_bounds, lemma_run_end_from_inside, lemma_run_end_unique,
    render, run_end, text_of, ByteClass, AMPERSAND, AT, BACKSLASH, BANG, CARET, COLON, COMMA, DOT,
    EQUALS, GREATER, HASH, LBRACE, LBRACK, LESS, LOWER_F, LOWER_N, LOWER_T, LPAREN, MINUS,
    NEWLINE, PERCENT, PIPE, PLUS, QUOTE, RBRACE, RBRACK, RPAREN, SLASH, SPACE, STAR, TAB, TILDE,
    UNDERSCORE,
};
use crate::token::{lookup_ident, new_token, Token, TokenType};
use vstd::prelude::*;
use vstd::utf8::encode_utf8;

verus! {

/// A lexer over one source text.
pub struct Lexer {
    source: Vec<u8>,
    cursor: usize,
    current_char: Option<u8>,
    indent_stack: Vec<usize>,
    pending_dedents: usize,
    line: usize,
    column: usize,
    line_start: bool,
}

impl View for Lexer {
    type V = LexerView;

    closed spec fn view(&self) -> LexerView {
        LexerView {
            source: self.source@,
            cursor: self.cursor as nat,
            indent_stack: self.indent_stack@.map_values(|w: usize| w as nat),
            pending_dedents: self.pending_dedents as nat,
            line_start: self.line_start,
        }
    }
}

impl Lexer {
    /// The state is well-formed, and the byte, line and column that the
    /// lexer keeps beside its cursor are those of the cursor.
    pub closed spec fn wf(&self) -> bool {
        &&& self@.wf()
        &&& self.source.len() < usize::MAX
        &&& self.current_char == self@.current_char()
        &&& self.line == self@.line()
        &&& self.column == self@.column()
    }

    /// A well-formed lexer has a well-formed state.
    pub proof fn lemma_wf(&self)
        requires
            self.wf(),
        ensures
            self@.wf(),
    {
    }

    /// A lexer at the start of `input`, with no block open.
    pub fn new(input: String) -> (lexer: Lexer)
        requires
            encode_utf8(input@).len() < usize::MAX,
        ensures
            lexer.wf(),
            lexer@ == LexerView::start(encode_utf8(input@)),
    {
        let source = input.as_str().as_bytes_vec();
        let current_char = if source.len() > 0 {
            Some(source[0])
        } else {
            None
        };
        let mut indent_stack: Vec<usize> = Vec::new();
        indent_stack.push(0);
        let lexer = Lexer {
            source,
            cursor: 0,
            current_char,
            indent_stack,
            pending_dedents: 0,
            line: 1,
            column: 1,
            line_start: false,
        };
        assert(lexer@.indent_stack =~= seq![0nat]);
        lexer
    }

    /// Moves the cursor one byte further, unless it is at the end of the
    /// text.
    pub fn read_char(&mut self)
        requires
            old(self).wf(),
        ensures
            final(self).wf(),
            final(self)@ == old(self)@.advance(),
    {
        if self.cursor < self.source.len() {
            proof {
                lemma_position_bounds(self.source@, self.cursor as int);
            }
            if self.source[self.cursor] == NEWLINE {
                self.line = self.line + 1;
                self.column = 1;
            } else {
                self.column = self.column + 1;
            }
            self.cursor = self.cursor + 1;
            self.current_char = if self.cursor < self.source.len() {
                Some(self.source[self.cursor])
            } else {
                None
            };
        }
    }

    /// Yields the next token and moves past it.
    pub fn next_token(&mut self) -> (token: Token)
        requires
            old(self).wf(),
        ensures
            final(self).wf(),
            token@ == next_step(old(self)@).token,
            final(self)@ == next_step(old(self)@).next,
    {
        if self.pending_dedents > 0 {
            self.pending_dedents = self.pending_dedents - 1;
            self.mark(TokenType::Dedent)
        } else if self.line_start {
            self.lex_line_start()
        } else {
            self.lex_plain()
        }
    }

    /// The byte that stands `ahead` bytes behind the one under the cursor.
    fn peek(&self, ahead: usize) -> (c: Option<u8>)
        requires
            self.wf(),
        ensures
            c == (if self@.cursor + ahead < self@.source.len() {
                Some(self@.source[self@.cursor + ahead])
            } else {
                None
            }),
    {
        if ahead < self.source.len() - self.cursor {
            Some(self.source[self.cursor + ahead])
        } else {
            None
        }
    }

    /// Moves the cursor to the end of the run of `class` bytes that it
    /// stands at.
    fn skip(&mut self, class: ByteClass)
        requires
            old(self).wf(),
        ensures
            final(self).wf(),
            final(self)@ == old(self)@.at(
                run_end(old(self)@.source, old(self)@.cursor as int, class),
            ),
            old(self)@.cursor <= final(self)@.cursor,
            final(self)@.cursor == run_end(old(self)@.source, old(self)@.cursor as int, class),
    {
        let ghost from = self@;
        loop
            invariant
                self.wf(),
                from.cursor <= self@.cursor,
                self@ == from.at(self@.cursor as int),
                run_end(from.source, self@.cursor as int, class) == run_end(
                    from.source,
                    from.cursor as int,
                    class,
                ),
            ensures
                self.wf(),
                self@ == from.at(run_end(from.source, from.cursor as int, class)),
                from.cursor <= self@.cursor,
                self@.cursor == run_end(from.source, from.cursor as int, class),
            decreases self@.source.len() - self@.cursor,
        {
            match self.current_char {
                Some(c) => {
                    if !class.admits(c) {
                        break ;
                    }
                },
                None => {
                    break ;
                },
            }
            self.read_char();
        }
    }

    /// A token without text that stands where the cursor is.
    fn mark(&self, kind: TokenType) -> (token: Token)
        requires
            self.wf(),
        ensures
            token@ == self@.mark(kind),
    {
        Token { token_type: kind, literal: String::new(), line: self.line, column: self.column }
    }

    /// The first call on a line: the run of blanks under the cursor is
    /// measured against the innermost open block.
    fn lex_line_start(&mut self) -> (token: Token)
        requires
            old(self).wf(),
        ensures
            final(self).wf(),
            (Step { token: token@, next: final(self)@ }) == line_start_step(old(self)@),
    {
        let from = self.cursor;
        let line = self.line;
        let column = self.column;
        let ghost entry = self@;
        let mut same = true;
        loop
            invariant
                self.wf(),
                from <= self@.cursor,
                entry.cursor == from,
                self@ == entry.at(self@.cursor as int),
                run_end(entry.source, self@.cursor as int, ByteClass::Blank) == run_end(
                    entry.source,
                    from as int,
                    ByteClass::Blank,
                ),
                same == uniform(entry.source, from as int, self@.cursor as int),
            ensures
                self.wf(),
                from <= self@.cursor,
                self@ == entry.at(self@.cursor as int),
                self@.cursor == run_end(entry.source, from as int, ByteClass::Blank),
                same == uniform(entry.source, from as int, self@.cursor as int),
            decreases self@.source.len() - self@.cursor,
        {
            match self.current_char {
                Some(c) => {
                    if c != SPACE && c != TAB {
                        break ;
                    }
                    if c != self.source[from] {
                        same = false;
                    }
                },
                None => {
                    break ;
                },
            }
            self.read_char();
        }
        let width = self.cursor - from;
        let top = self.indent_stack[self.indent_stack.len() - 1];
        let empty = match self.current_char {
            Some(c) => c == NEWLINE || c == HASH,
            None => true,
        };
        if empty || (same && width == top) {
            proof {
                lemma_plain_step_behind_blanks(entry, self@.cursor as int);
            }
            return self.lex_plain();
        }
        let literal = render(&self.source, from, self.cursor);
        self.line_start = false;
        if !same {
            Token { token_type: TokenType::Illegal, literal, line, column }
        } else if width > top {
            self.indent_stack.push(width);
            assert(self@.indent_stack =~= entry.indent_stack.push(width as nat));
            Token { token_type: TokenType::Indent, literal, line, column }
        } else {
            let ghost base = self@;
            let open = self.indent_stack.len();
            let mut closed: usize = 0;
            while self.indent_stack[self.indent_stack.len() - 1] > width
                invariant
                    self.wf(),
                    open == base.indent_stack.len(),
                    closed + self.indent_stack.len() == open,
                    self@.indent_stack =~= base.indent_stack.take(
                        base.indent_stack.len() - closed,
                    ),
                    levels_above(base.indent_stack, width as nat) == closed + levels_above(
                        self@.indent_stack,
                        width as nat,
                    ),
                    self@ == (LexerView { indent_stack: self@.indent_stack, ..base }),
                decreases self.indent_stack.len(),
            {
                let ghost before = self@.indent_stack;
                self.indent_stack.pop();
                closed = closed + 1;
                assert(self@.indent_stack =~= before.drop_last());
            }
            if self.indent_stack[self.indent_stack.len() - 1] == width {
                self.pending_dedents = closed - 1;
                self.mark(TokenType::Dedent)
            } else {
                self.pending_dedents = closed;
                Token { token_type: TokenType::Illegal, literal, line, column }
            }
        }
    }

    /// The token that starts behind the blanks under the cursor.
    fn lex_plain(&mut self) -> (token: Token)
        requires
            old(self).wf(),
        ensures
            final(self).wf(),
            (Step { token: token@, next: final(self)@ }) == plain_step(old(self)@),
    {
        self.skip(ByteClass::Blank);
        match self.current_char {
            None => self.lex_end(),
            Some(c) => {
                if c == NEWLINE {
                    self.lex_newline()
                } else if c == HASH {
                    self.skip(ByteClass::Line);
                    match self.current_char {
                        None => self.lex_end(),
                        Some(_) => self.lex_newline(),
                    }
                } else if c == LOWER_F && self.peek(1) == Some(QUOTE) {
                    self.lex_string(true)
                } else if is_letter(c) {
                    self.lex_word()
                } else if is_digit(c) {
                    self.lex_number()
                } else if c == QUOTE {
                    self.lex_string(false)
                } else {
                    self.lex_operator()
                }
            },
        }
    }

    /// An identifier, a keyword or a lone `_`.
    fn lex_word(&mut self) -> (token: Token)
        requires
            old(self).wf(),
            old(self)@.cursor < old(self)@.source.len(),
        ensures
            final(self).wf(),
            (Step { token: token@, next: final(self)@ }) == word_step(old(self)@),
    {
        let from = self.cursor;
        let line = self.line;
        let column = self.column;
        self.skip(ByteClass::Word);
        let literal = render(&self.source, from, self.cursor);
        let kind = if self.cursor - from == 1 && self.source[from] == UNDERSCORE {
            TokenType::Underscore
        } else {
            lookup_ident(literal.as_str())
        };
        self.line_start = false;
        Token { token_type: kind, literal, line, column }
    }

    /// An `Int`, a `Float`, or the `Illegal` start of a `Float` without
    /// digits behind its `.`.
    fn lex_number(&mut self) -> (token: Token)
        requires
            old(self).wf(),
            old(self)@.cursor < old(self)@.source.len(),
        ensures
            final(self).wf(),
            (Step { token: token@, next: final(self)@ }) == number_step(old(self)@),
    {
        let from = self.cursor;
        let line = self.line;
        let column = self.column;
        self.skip(ByteClass::Digit);
        let mut kind = TokenType::Int;
        if self.current_char == Some(DOT) {
            self.read_char();
            let fraction = self.cursor;
            self.skip(ByteClass::Digit);
            kind = if self.cursor > fraction {
                TokenType::Float
            } else {
                TokenType::Illegal
            };
        }
        let literal = render(&self.source, from, self.cursor);
        self.line_start = false;
        Token { token_type: kind, literal, line, column }
    }

    /// An operator or a delimiter, the longest spelling first, or an
    /// `Illegal` byte.
    fn lex_operator(&mut self) -> (token: Token)
        requires
            old(self).wf(),
            old(self)@.cursor < old(self)@.source.len(),
        ensures
            final(self).wf(),
            (Step { token: token@, next: final(self)@ }) == operator_step(old(self)@),
    {
        let from = self.cursor;
        let line = self.line;
        let column = self.column;
        let first = self.source[from];
        let pair = match self.peek(1) {
            Some(second) => pair_of(first, second),
            None => None,
        };
        self.read_char();
        self.line_start = false;
        match pair {
            Some(kind) => {
                self.read_char();
                let literal = render(&self.source, from, self.cursor);
                Token { token_type: kind, literal, line, column }
            },
            None => {
                let kind = match single_of(first) {
                    Some(kind) => kind,
                    None => TokenType::Illegal,
                };
                assert(self@.source.subrange(from as int, from + 1) =~= seq![first]);
                new_token(kind, first, line, column)
            },
        }
    }

    /// A string, with the cursor on its opening quote, or, where
    /// `formatted`, on the `f` before it.
    fn lex_string(&mut self, formatted: bool) -> (token: Token)
        requires
            old(self).wf(),
            old(self)@.cursor + (if formatted { 1int } else { 0int }) < old(self)@.source.len(),
        ensures
            final(self).wf(),
            (Step { token: token@, next: final(self)@ }) == string_step(old(self)@, formatted),
    {
        let from = self.cursor;
        let line = self.line;
        let column = self.column;
        if formatted {
            self.read_char();
        }
        let triple = self.peek(1) == Some(QUOTE) && self.peek(2) == Some(QUOTE);
        self.read_char();
        if triple {
            self.read_char();
            self.read_char();
        }
        let body = self.cursor;
        let ghost entry = self@;
        let mut closed = false;
        loop
            invariant_except_break
                !closed,
            invariant
                self.wf(),
                body <= self@.cursor,
                self@ == entry.at(self@.cursor as int),
                entry.cursor == body,
                closing_quote(entry.source, self@.cursor as int, triple) == closing_quote(
                    entry.source,
                    body as int,
                    triple,
                ),
                !triple ==> forall|i: int|
                    body <= i < self@.cursor ==> #[trigger] entry.source[i] != NEWLINE,
            ensures
                self.wf(),
                body <= self@.cursor,
                self@ == entry.at(self@.cursor as int),
                closed ==> closing_quote(entry.source, body as int, triple) == Some(
                    self@.cursor as int,
                ) && closes(entry.source, self@.cursor as int, triple),
                !closed ==> closing_quote(entry.source, body as int, triple).is_none(),
                !closed && triple ==> self@.cursor == entry.source.len(),
                !closed && !triple ==> self@.cursor == run_end(
                    entry.source,
                    body as int,
                    ByteClass::Line,
                ),
            decreases self@.source.len() - self@.cursor,
        {
            match self.current_char {
                None => {
                    proof {
                        if !triple {
                            lemma_run_end_unique(
                                entry.source,
                                body as int,
                                self@.cursor as int,
                                ByteClass::Line,
                            );
                        }
                    }
                    break ;
                },
                Some(c) => {
                    if !triple && c == NEWLINE {
                        proof {
                            lemma_run_end_unique(
                                entry.source,
                                body as int,
                                self@.cursor as int,
                                ByteClass::Line,
                            );
                        }
                        break ;
                    }
                    let escape = c == BACKSLASH && match self.peek(1) {
                        Some(d) => triple || d != NEWLINE,
                        None => false,
                    };
                    assert(escape == escapes(entry.source, self@.cursor as int, triple));
                    if escape {
                        self.read_char();
                    } else if c == QUOTE && (!triple || (self.peek(1) == Some(QUOTE) && self.peek(2)
                        == Some(QUOTE))) {
                        closed = true;
                        break ;
                    }
                    self.read_char();
                },
            }
        }
        self.line_start = false;
        if closed {
            let literal = payload(&self.source, body, self.cursor);
            self.read_char();
            if triple {
                self.read_char();
                self.read_char();
            }
            let kind = if formatted {
                TokenType::FString
            } else if triple {
                TokenType::DocString
            } else {
                TokenType::String
            };
            Token { token_type: kind, literal, line, column }
        } else {
            let literal = render(&self.source, from, self.cursor);
            Token { token_type: TokenType::Illegal, literal, line, column }
        }
    }

    /// The newline under the cursor.
    fn lex_newline(&mut self) -> (token: Token)
        requires
            old(self).wf(),
            old(self)@.cursor < old(self)@.source.len(),
        ensures
            final(self).wf(),
            (Step { token: token@, next: final(self)@ }) == newline_step(old(self)@),
    {
        let from = self.cursor;
        let token = new_token(TokenType::Newline, self.source[from], self.line, self.column);
        assert(self@.source.subrange(from as int, from + 1) =~= seq![self@.source[from as int]]);
        self.read_char();
        self.line_start = true;
        token
    }

    /// The end of the text: what is still owed for the open blocks, then
    /// `EOF`.
    fn lex_end(&mut self) -> (token: Token)
        requires
            old(self).wf(),
        ensures
            final(self).wf(),
            (Step { token: token@, next: final(self)@ }) == end_step(old(self)@),
    {
        let open = self.indent_stack.len();
        if open > 1 {
            if !self.line_start {
                self.line_start = true;
                self.mark(TokenType::Newline)
            } else {
                self.indent_stack.truncate(1);
                self.pending_dedents = open - 2;
                assert(self@.indent_stack =~= old(self)@.indent_stack.take(1));
                self.mark(TokenType::Dedent)
            }
        } else {
            self.mark(TokenType::EOF)
        }
    }
}

/// Scanning from anywhere inside the blanks under the cursor yields what
/// scanning from the cursor yields.
proof fn lemma_plain_step_behind_blanks(s: LexerView, mid: int)
    requires
        s.cursor <= s.source.len(),
        s.cursor <= mid <= run_end(s.source, s.cursor as int, ByteClass::Blank),
    ensures
        plain_step(s.at(mid)) == plain_step(s),
{
    lemma_run_end_from_inside(s.source, s.cursor as int, mid, ByteClass::Blank);
    let p = run_end(s.source, s.cursor as int, ByteClass::Blank);
    assert(s.at(mid).at(p) == s.at(p));
}

/// The payload of the string body `src[from..to]`, escapes resolved, as text.
fn payload(src: &Vec<u8>, from: usize, to: usize) -> (text: String)
    requires
        from <= to <= src.len(),
    ensures
        text@ == text_of(unescaped(src@, from as int, to as int)),
{
    let mut text = String::new();
    let ghost mut done: Seq<u8> = Seq::empty();
    let mut i: usize = from;
    while i < to
        invariant
            from <= i <= to <= src.len(),
            text@ == text_of(done),
            done + unescaped(src@, i as int, to as int) == unescaped(src@, from as int, to as int),
        decreases to - i,
    {
        let c = src[i];
        let ghost before = done;
        if c == BACKSLASH && to - i > 1 {
            let d = src[i + 1];
            if d == LOWER_N {
                text.push(NEWLINE as char);
            } else if d == LOWER_T {
                text.push(TAB as char);
            } else if d == QUOTE || d == BACKSLASH {
                text.push(d as char);
            } else {
                text.push(BACKSLASH as char);
                text.push(d as char);
            }
            proof {
                done = before + escape_value(d);
                assert(before + (escape_value(d) + unescaped(src@, i + 2, to as int)) =~= done
                    + unescaped(src@, i + 2, to as int));
            }
            i += 2;
        } else {
            text.push(c as char);
            proof {
                done = before + seq![c];
                assert(before + (seq![c] + unescaped(src@, i + 1, to as int)) =~= done
                    + unescaped(src@, i + 1, to as int));
            }
            i += 1;
        }
        assert(text@ =~= text_of(done));
    }
    assert(done =~= unescaped(src@, from as int, to as int));
    text
}

/// The kind of the operator spelled by the two bytes `a` and `b`, if any.
fn pair_of(a: u8, b: u8) -> (kind: Option<TokenType>)
    ensures
        kind == pair_kind(a, b),
{
    if b == EQUALS {
        if a == PLUS {
            Some(TokenType::Increment)
        } else if a == MINUS {
            Some(TokenType::Decrement)
        } else if a == STAR {
            Some(TokenType::MultAssgn)
        } else if a == SLASH {
            Some(TokenType::DivAssgn)
        } else if a == EQUALS {
            Some(TokenType::Eq)
        } else if a == BANG {
            Some(TokenType::NotEq)
        } else if a == LESS {
            Some(TokenType::Le)
        } else if a == GREATER {
            Some(TokenType::Ge)
        } else {
            None
        }
    } else if a != b {
        None
    } else if a == STAR {
        Some(TokenType::Exponent)
    } else if a == PLUS {
        Some(TokenType::PlusIncrement)
    } else if a == MINUS {
        Some(TokenType::MinusDecrement)
    } else if a == LESS {
        Some(TokenType::LShift)
    } else if a == GREATER {
        Some(TokenType::RShift)
    } else {
        None
    }
}

/// The kind of the operator or delimiter spelled by the single byte `a`, if
/// any.
fn single_of(a: u8) -> (kind: Option<TokenType>)
    ensures
        kind == single_kind(a),
{
    match a {
        EQUALS => Some(TokenType::Assign),
        PLUS => Some(TokenType::Plus),
        MINUS => Some(TokenType::Minus),
        STAR => Some(TokenType::Asterisk),
        SLASH => Some(TokenType::Slash),
        PERCENT => Some(TokenType::Mod),
        BANG => Some(TokenType::Bang),
        AMPERSAND => Some(TokenType::Ampersand),
        AT => Some(TokenType::At),
        COMMA => Some(TokenType::Comma),
        COLON => Some(TokenType::Colon),
        PIPE => Some(TokenType::Pipe),
        DOT => Some(TokenType::Dot),
        CARET => Some(TokenType::Xor),
        TILDE => Some(TokenType::Tilde),
        LESS => Some(TokenType::Lt),
        GREATER => Some(TokenType::Gt),
        LPAREN => Some(TokenType::LParen),
        RPAREN => Some(TokenType::RParen),
        LBRACE => Some(TokenType::LBrace),
        RBRACE => Some(TokenType::RBrace),
        LBRACK => Some(TokenType::LBrack),
        RBRACK => Some(TokenType::RBrack),
        _ => None,
    }
}

} // verus!
