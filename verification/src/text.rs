//! Source text as bytes: the byte classes the scanner tells apart, maximal
//! runs of one class, the line and column of an offset, and the rendering of
//! bytes as characters.

use vstd::prelude::*;

verus! {

// The ASCII bytes that the scanner names.
pub const TAB: u8 = 9;

pub const NEWLINE: u8 = 10;

pub const SPACE: u8 = 32;

pub const BANG: u8 = 33;

pub const QUOTE: u8 = 34;

pub const HASH: u8 = 35;

pub const PERCENT: u8 = 37;

pub const AMPERSAND: u8 = 38;

pub const LPAREN: u8 = 40;

pub const RPAREN: u8 = 41;

pub const STAR: u8 = 42;

pub const PLUS: u8 = 43;

pub const COMMA: u8 = 44;

pub const MINUS: u8 = 45;

pub const DOT: u8 = 46;

pub const SLASH: u8 = 47;

pub const DIGIT_0: u8 = 48;

pub const DIGIT_9: u8 = 57;

pub const COLON: u8 = 58;

pub const LESS: u8 = 60;

pub const EQUALS: u8 = 61;

pub const GREATER: u8 = 62;

pub const AT: u8 = 64;

pub const UPPER_A: u8 = 65;

pub const UPPER_Z: u8 = 90;

pub const LBRACK: u8 = 91;

pub const BACKSLASH: u8 = 92;

pub const RBRACK: u8 = 93;

pub const CARET: u8 = 94;

pub const UNDERSCORE: u8 = 95;

pub const LOWER_A: u8 = 97;

pub const LOWER_F: u8 = 102;

pub const LOWER_N: u8 = 110;

pub const LOWER_T: u8 = 116;

pub const LOWER_Z: u8 = 122;

pub const LBRACE: u8 = 123;

pub const PIPE: u8 = 124;

pub const RBRACE: u8 = 125;

pub const TILDE: u8 = 126;

/// An ASCII letter or `_`: the bytes that may start an identifier.
pub open spec fn letter(c: u8) -> bool {
    (LOWER_A <= c && c <= LOWER_Z) || (UPPER_A <= c && c <= UPPER_Z) || c == UNDERSCORE
}

/// An ASCII decimal digit.
pub open spec fn digit(c: u8) -> bool {
    DIGIT_0 <= c && c <= DIGIT_9
}

/// Horizontal whitespace: a space or a tab.
pub open spec fn blank(c: u8) -> bool {
    c == SPACE || c == TAB
}

/// Whether `c` is an ASCII letter or `_`.
pub fn is_letter(c: u8) -> (r: bool)
    ensures
        r == letter(c),
{
    (LOWER_A <= c && c <= LOWER_Z) || (UPPER_A <= c && c <= UPPER_Z) || c == UNDERSCORE
}

/// Whether `c` is an ASCII decimal digit.
pub fn is_digit(c: u8) -> (r: bool)
    ensures
        r == digit(c),
{
    DIGIT_0 <= c && c <= DIGIT_9
}

/// The classes of bytes of which the scanner consumes maximal runs.
#[derive(Clone, Copy, Debug, PartialEq, Eq, Structural)]
pub enum ByteClass {
    /// Spaces and tabs.
    Blank,
    /// Letters, digits and `_`: what an identifier is made of.
    Word,
    /// Decimal digits.
    Digit,
    /// Every byte but the newline: what is left of a line.
    Line,
}

impl ByteClass {
    /// Whether `c` belongs to the class.
    pub open spec fn holds(self, c: u8) -> bool {
        match self {
            ByteClass::Blank => blank(c),
            ByteClass::Word => letter(c) || digit(c),
            ByteClass::Digit => digit(c),
            ByteClass::Line => c != NEWLINE,
        }
    }

    /// Whether `c` belongs to the class.
    pub fn admits(self, c: u8) -> (r: bool)
        ensures
            r == self.holds(c),
    {
        match self {
            ByteClass::Blank => c == SPACE || c == TAB,
            ByteClass::Word => is_letter(c) || is_digit(c),
            ByteClass::Digit => is_digit(c),
            ByteClass::Line => c != NEWLINE,
        }
    }
}

/// The end of the maximal run of `class` bytes that starts at `from`: the
/// first offset at or after `from` that holds a byte outside the class, or the
/// length of `src` where there is none.
pub open spec fn run_end(src: Seq<u8>, from: int, class: ByteClass) -> int
    decreases src.len() - from,
{
    if 0 <= from < src.len() && class.holds(src[from]) {
        run_end(src, from + 1, class)
    } else {
        from
    }
}

/// `run_end` stays inside the text, every byte before it belongs to the class,
/// and the byte at it, if there is one, does not.
pub proof fn lemma_run_end(src: Seq<u8>, from: int, class: ByteClass)
    requires
        0 <= from <= src.len(),
    ensures
        from <= run_end(src, from, class) <= src.len(),
        forall|i: int| from <= i < run_end(src, from, class) ==> class.holds(#[trigger] src[i]),
        run_end(src, from, class) < src.len() ==> !class.holds(src[run_end(src, from, class)]),
    decreases src.len() - from,
{
    if from < src.len() && class.holds(src[from]) {
        lemma_run_end(src, from + 1, class);
    }
}

/// An offset that closes a run of `class` bytes from `from`, and is followed
/// by no further byte of the class, is `run_end`.
pub proof fn lemma_run_end_unique(src: Seq<u8>, from: int, end: int, class: ByteClass)
    requires
        0 <= from <= end <= src.len(),
        forall|i: int| from <= i < end ==> class.holds(#[trigger] src[i]),
        end < src.len() ==> !class.holds(src[end]),
    ensures
        run_end(src, from, class) == end,
    decreases end - from,
{
    if from < end {
        lemma_run_end_unique(src, from + 1, end, class);
    }
}

/// The run that starts anywhere inside a run ends where that run ends.
pub proof fn lemma_run_end_from_inside(src: Seq<u8>, from: int, mid: int, class: ByteClass)
    requires
        0 <= from <= src.len(),
        from <= mid <= run_end(src, from, class),
    ensures
        run_end(src, mid, class) == run_end(src, from, class),
{
    lemma_run_end(src, from, class);
    lemma_run_end_unique(src, mid, run_end(src, from, class), class);
}

/// The line, counted from 1, of the byte at offset `pos`: one more than the
/// number of newlines before it.
pub open spec fn line_of(src: Seq<u8>, pos: int) -> nat
    decreases pos,
{
    if pos <= 0 || pos > src.len() {
        1
    } else if src[pos - 1] == NEWLINE {
        line_of(src, pos - 1) + 1
    } else {
        line_of(src, pos - 1)
    }
}

/// The column, counted from 1, of the byte at offset `pos`: one more than the
/// number of bytes between it and the newline before it.
pub open spec fn column_of(src: Seq<u8>, pos: int) -> nat
    decreases pos,
{
    if pos <= 0 || pos > src.len() || src[pos - 1] == NEWLINE {
        1
    } else {
        column_of(src, pos - 1) + 1
    }
}

/// Lines and columns start at 1 and never exceed the offset by more than one.
pub proof fn lemma_position_bounds(src: Seq<u8>, pos: int)
    requires
        0 <= pos <= src.len(),
    ensures
        1 <= line_of(src, pos) <= pos + 1,
        1 <= column_of(src, pos) <= pos + 1,
    decreases pos,
{
    if pos > 0 {
        lemma_position_bounds(src, pos - 1);
    }
}

/// The text that a sequence of bytes stands for: each byte is read as the
/// character with the same code point, so ASCII text reads as itself.
pub open spec fn text_of(bytes: Seq<u8>) -> Seq<char> {
    Seq::new(bytes.len(), |i: int| bytes[i] as char)
}

/// `std::string::String::push` appends the given character to the end of the
/// string and leaves the characters before it as they were.
pub assume_specification[ std::string::String::push ](s: &mut std::string::String, c: char)
    ensures
        final(s)@ == old(s)@.push(c),
;

/// The text of the bytes `src[from..to]`.
pub fn render(src: &Vec<u8>, from: usize, to: usize) -> (text: String)
    requires
        from <= to <= src.len(),
    ensures
        text@ == text_of(src@.subrange(from as int, to as int)),
{
    let mut text = String::new();
    let mut i: usize = from;
    while i < to
        invariant
            from <= i <= to <= src.len(),
            text@ == text_of(src@.subrange(from as int, i as int)),
        decreases to - i,
    {
        text.push(src[i] as char);
        i += 1;
        assert(text@ =~= text_of(src@.subrange(from as int, i as int)));
    }
    text
}

/// Whether two strings hold the same text.
pub fn same_text(a: &str, b: &str) -> (same: bool)
    ensures
        same == (a@ == b@),
{
    let x = a.as_bytes();
    let y = b.as_bytes();
    if x.len() != y.len() {
        return false;
    }
    let mut i: usize = 0;
    while i < x.len()
        invariant
            i <= x.len(),
            x.len() == y.len(),
            x@ == vstd::utf8::encode_utf8(a@),
            y@ == vstd::utf8::encode_utf8(b@),
            forall|j: int| 0 <= j < i ==> x@[j] == y@[j],
        decreases x.len() - i,
    {
        if x[i] != y[i] {
            return false;
        }
        i += 1;
    }
    proof {
        assert(x@ =~= y@);
        vstd::utf8::encode_utf8_decode_utf8(a@);
        vstd::utf8::encode_utf8_decode_utf8(b@);
    }
    true
}

} // verus!
