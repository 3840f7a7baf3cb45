//! The closed set of token kinds, the token itself, and the table of reserved
//! words.

use crate::text::{same_text, text_of};
use vstd::prelude::*;

verus! {

/// The kind of a token.
#[derive(Debug, Clone, Copy, PartialEq, Eq, Structural)]
pub enum TokenType {
    // Special tokens
    /// Malformed input; the literal carries the offending text.
    Illegal,
    /// The end of the source text.
    EOF,
    Newline,
    Indent,
    Dedent,
    // Identifiers and literals
    Ident,
    Int,
    Float,
    String,
    DocString,
    // Operators
    /// `=`
    Assign,
    /// `+`
    Plus,
    /// `-`
    Minus,
    /// `*`
    Asterisk,
    /// `/`
    Slash,
    /// `%`
    Mod,
    /// `**`
    Exponent,
    /// `+=`
    Increment,
    /// `-=`
    Decrement,
    /// `*=`
    MultAssgn,
    /// `/=`
    DivAssgn,
    /// `++`
    PlusIncrement,
    /// `--`
    MinusDecrement,
    /// `==`
    Eq,
    /// `!=`
    NotEq,
    /// `<`
    Lt,
    /// `>`
    Gt,
    /// `<=`
    Le,
    /// `>=`
    Ge,
    /// `!`
    Bang,
    /// `&`
    Ampersand,
    /// `#`
    Hash,
    /// `@`
    At,
    // Delimiters
    /// `,`
    Comma,
    /// `:`
    Colon,
    /// `|`
    Pipe,
    /// `.`
    Dot,
    /// `<<`
    LShift,
    /// `>>`
    RShift,
    /// `^`
    Xor,
    /// `~`
    Tilde,
    /// `(`
    LParen,
    /// `)`
    RParen,
    /// `{`
    LBrace,
    /// `}`
    RBrace,
    /// `[`
    LBrack,
    /// `]`
    RBrack,
    /// `_` standing alone
    Underscore,
    // Keywords
    Init,
    Self_,
    Spell,
    Spellbook,
    True_,
    False_,
    If,
    Otherwise,
    Else,
    For,
    In,
    While,
    Stop,
    Skip,
    Ignore,
    Return,
    Import,
    Match,
    Case,
    Attempt,
    Resolve,
    Ensnare,
    Raise,
    As,
    Arcane,
    ArcaneSpell,
    Super,
    /// A string literal prefixed with `f`.
    FString,
    Check,
    None_,
    And,
    Or,
    Not,
}

/// A token: its kind, its text, and the line and column, both counted from 1,
/// at which it stands in the source.
#[derive(Debug, Clone, PartialEq, Eq)]
pub struct Token {
    pub token_type: TokenType,
    pub literal: String,
    pub line: usize,
    pub column: usize,
}

/// What a [`Token`] holds, as mathematical values.
pub struct TokenView {
    pub kind: TokenType,
    pub literal: Seq<char>,
    pub line: nat,
    pub column: nat,
}

impl View for Token {
    type V = TokenView;

    open spec fn view(&self) -> TokenView {
        TokenView {
            kind: self.token_type,
            literal: self.literal@,
            line: self.line as nat,
            column: self.column as nat,
        }
    }
}

/// The table of reserved words: the kind that a spelling is reserved for, or
/// `None` for every other text. Spellings are matched exactly, letter case
/// included.
pub open spec fn keyword(spelling: Seq<char>) -> Option<TokenType> {
    if spelling == "import"@ {
        Some(TokenType::Import)
    } else if spelling == "match"@ {
        Some(TokenType::Match)
    } else if spelling == "case"@ {
        Some(TokenType::Case)
    } else if spelling == "spell"@ {
        Some(TokenType::Spell)
    } else if spelling == "self"@ {
        Some(TokenType::Self_)
    } else if spelling == "init"@ {
        Some(TokenType::Init)
    } else if spelling == "spellbook"@ {
        Some(TokenType::Spellbook)
    } else if spelling == "True"@ {
        Some(TokenType::True_)
    } else if spelling == "False"@ {
        Some(TokenType::False_)
    } else if spelling == "if"@ {
        Some(TokenType::If)
    } else if spelling == "otherwise"@ {
        Some(TokenType::Otherwise)
    } else if spelling == "else"@ {
        Some(TokenType::Else)
    } else if spelling == "for"@ {
        Some(TokenType::For)
    } else if spelling == "in"@ {
        Some(TokenType::In)
    } else if spelling == "while"@ {
        Some(TokenType::While)
    } else if spelling == "stop"@ {
        Some(TokenType::Stop)
    } else if spelling == "skip"@ {
        Some(TokenType::Skip)
    } else if spelling == "ignore"@ {
        Some(TokenType::Ignore)
    } else if spelling == "and"@ {
        Some(TokenType::And)
    } else if spelling == "or"@ {
        Some(TokenType::Or)
    } else if spelling == "not"@ {
        Some(TokenType::Not)
    } else if spelling == "return"@ {
        Some(TokenType::Return)
    } else if spelling == "attempt"@ {
        Some(TokenType::Attempt)
    } else if spelling == "resolve"@ {
        Some(TokenType::Resolve)
    } else if spelling == "ensnare"@ {
        Some(TokenType::Ensnare)
    } else if spelling == "raise"@ {
        Some(TokenType::Raise)
    } else if spelling == "as"@ {
        Some(TokenType::As)
    } else if spelling == "arcane"@ {
        Some(TokenType::Arcane)
    } else if spelling == "arcanespell"@ {
        Some(TokenType::ArcaneSpell)
    } else if spelling == "super"@ {
        Some(TokenType::Super)
    } else if spelling == "check"@ {
        Some(TokenType::Check)
    } else if spelling == "None"@ {
        Some(TokenType::None_)
    } else {
        None
    }
}

/// The kind of an identifier-shaped text: its keyword kind where the text is
/// reserved, `Ident` otherwise.
pub open spec fn word_kind(spelling: Seq<char>) -> TokenType {
    match keyword(spelling) {
        Some(kind) => kind,
        None => TokenType::Ident,
    }
}

/// The length of a text and its first two characters: enough to tell any
/// two spellings of the table apart.
spec fn traits(spelling: Seq<char>) -> (nat, char, char) {
    (spelling.len(), spelling[0], spelling[1])
}

/// Every spelling of the table is reserved for the kind that stands beside
/// it.
pub proof fn lemma_keyword_table()
    ensures
        keyword("import"@) == Some(TokenType::Import),
        keyword("match"@) == Some(TokenType::Match),
        keyword("case"@) == Some(TokenType::Case),
        keyword("spell"@) == Some(TokenType::Spell),
        keyword("self"@) == Some(TokenType::Self_),
        keyword("init"@) == Some(TokenType::Init),
        keyword("spellbook"@) == Some(TokenType::Spellbook),
        keyword("True"@) == Some(TokenType::True_),
        keyword("False"@) == Some(TokenType::False_),
        keyword("if"@) == Some(TokenType::If),
        keyword("otherwise"@) == Some(TokenType::Otherwise),
        keyword("else"@) == Some(TokenType::Else),
        keyword("for"@) == Some(TokenType::For),
        keyword("in"@) == Some(TokenType::In),
        keyword("while"@) == Some(TokenType::While),
        keyword("stop"@) == Some(TokenType::Stop),
        keyword("skip"@) == Some(TokenType::Skip),
        keyword("ignore"@) == Some(TokenType::Ignore),
        keyword("and"@) == Some(TokenType::And),
        keyword("or"@) == Some(TokenType::Or),
        keyword("not"@) == Some(TokenType::Not),
        keyword("return"@) == Some(TokenType::Return),
        keyword("attempt"@) == Some(TokenType::Attempt),
        keyword("resolve"@) == Some(TokenType::Resolve),
        keyword("ensnare"@) == Some(TokenType::Ensnare),
        keyword("raise"@) == Some(TokenType::Raise),
        keyword("as"@) == Some(TokenType::As),
        keyword("arcane"@) == Some(TokenType::Arcane),
        keyword("arcanespell"@) == Some(TokenType::ArcaneSpell),
        keyword("super"@) == Some(TokenType::Super),
        keyword("check"@) == Some(TokenType::Check),
        keyword("None"@) == Some(TokenType::None_),
{
    reveal_strlit("import");
    assert(traits("import"@) == (6nat, 'i', 'm'));
    reveal_strlit("match");
    assert(traits("match"@) == (5nat, 'm', 'a'));
    reveal_strlit("case");
    assert(traits("case"@) == (4nat, 'c', 'a'));
    reveal_strlit("spell");
    assert(traits("spell"@) == (5nat, 's', 'p'));
    reveal_strlit("self");
    assert(traits("self"@) == (4nat, 's', 'e'));
    reveal_strlit("init");
    assert(traits("init"@) == (4nat, 'i', 'n'));
    reveal_strlit("spellbook");
    assert(traits("spellbook"@) == (9nat, 's', 'p'));
    reveal_strlit("True");
    assert(traits("True"@) == (4nat, 'T', 'r'));
    reveal_strlit("False");
    assert(traits("False"@) == (5nat, 'F', 'a'));
    reveal_strlit("if");
    assert(traits("if"@) == (2nat, 'i', 'f'));
    reveal_strlit("otherwise");
    assert(traits("otherwise"@) == (9nat, 'o', 't'));
    reveal_strlit("else");
    assert(traits("else"@) == (4nat, 'e', 'l'));
    reveal_strlit("for");
    assert(traits("for"@) == (3nat, 'f', 'o'));
    reveal_strlit("in");
    assert(traits("in"@) == (2nat, 'i', 'n'));
    reveal_strlit("while");
    assert(traits("while"@) == (5nat, 'w', 'h'));
    reveal_strlit("stop");
    assert(traits("stop"@) == (4nat, 's', 't'));
    reveal_strlit("skip");
    assert(traits("skip"@) == (4nat, 's', 'k'));
    reveal_strlit("ignore");
    assert(traits("ignore"@) == (6nat, 'i', 'g'));
    reveal_strlit("and");
    assert(traits("and"@) == (3nat, 'a', 'n'));
    reveal_strlit("or");
    assert(traits("or"@) == (2nat, 'o', 'r'));
    reveal_strlit("not");
    assert(traits("not"@) == (3nat, 'n', 'o'));
    reveal_strlit("return");
    assert(traits("return"@) == (6nat, 'r', 'e'));
    reveal_strlit("attempt");
    assert(traits("attempt"@) == (7nat, 'a', 't'));
    reveal_strlit("resolve");
    assert(traits("resolve"@) == (7nat, 'r', 'e'));
    reveal_strlit("ensnare");
    assert(traits("ensnare"@) == (7nat, 'e', 'n'));
    reveal_strlit("raise");
    assert(traits("raise"@) == (5nat, 'r', 'a'));
    reveal_strlit("as");
    assert(traits("as"@) == (2nat, 'a', 's'));
    reveal_strlit("arcane");
    assert(traits("arcane"@) == (6nat, 'a', 'r'));
    reveal_strlit("arcanespell");
    assert(traits("arcanespell"@) == (11nat, 'a', 'r'));
    reveal_strlit("super");
    assert(traits("super"@) == (5nat, 's', 'u'));
    reveal_strlit("check");
    assert(traits("check"@) == (5nat, 'c', 'h'));
    reveal_strlit("None");
    assert(traits("None"@) == (4nat, 'N', 'o'));
}

/// No two spellings are reserved for the same kind.
pub proof fn lemma_keyword_injective(a: Seq<char>, b: Seq<char>)
    requires
        keyword(a) is Some,
        keyword(a) == keyword(b),
    ensures
        a == b,
{
}

/// No spelling is reserved for `Ident`: a text is an `Ident` exactly when the
/// table does not hold it.
pub proof fn lemma_keyword_not_ident(spelling: Seq<char>)
    ensures
        keyword(spelling) != Some(TokenType::Ident),
        word_kind(spelling) == TokenType::Ident <==> keyword(spelling) is None,
{
}

/// Looks `ident` up in the table of reserved words.
pub fn lookup_ident(ident: &str) -> (kind: TokenType)
    ensures
        kind == word_kind(ident@),
{
    if same_text(ident, "import") {
        TokenType::Import
    } else if same_text(ident, "match") {
        TokenType::Match
    } else if same_text(ident, "case") {
        TokenType::Case
    } else if same_text(ident, "spell") {
        TokenType::Spell
    } else if same_text(ident, "self") {
        TokenType::Self_
    } else if same_text(ident, "init") {
        TokenType::Init
    } else if same_text(ident, "spellbook") {
        TokenType::Spellbook
    } else if same_text(ident, "True") {
        TokenType::True_
    } else if same_text(ident, "False") {
        TokenType::False_
    } else if same_text(ident, "if") {
        TokenType::If
    } else if same_text(ident, "otherwise") {
        TokenType::Otherwise
    } else if same_text(ident, "else") {
        TokenType::Else
    } else if same_text(ident, "for") {
        TokenType::For
    } else if same_text(ident, "in") {
        TokenType::In
    } else if same_text(ident, "while") {
        TokenType::While
    } else if same_text(ident, "stop") {
        TokenType::Stop
    } else if same_text(ident, "skip") {
        TokenType::Skip
    } else if same_text(ident, "ignore") {
        TokenType::Ignore
    } else if same_text(ident, "and") {
        TokenType::And
    } else if same_text(ident, "or") {
        TokenType::Or
    } else if same_text(ident, "not") {
        TokenType::Not
    } else if same_text(ident, "return") {
        TokenType::Return
    } else if same_text(ident, "attempt") {
        TokenType::Attempt
    } else if same_text(ident, "resolve") {
        TokenType::Resolve
    } else if same_text(ident, "ensnare") {
        TokenType::Ensnare
    } else if same_text(ident, "raise") {
        TokenType::Raise
    } else if same_text(ident, "as") {
        TokenType::As
    } else if same_text(ident, "arcane") {
        TokenType::Arcane
    } else if same_text(ident, "arcanespell") {
        TokenType::ArcaneSpell
    } else if same_text(ident, "super") {
        TokenType::Super
    } else if same_text(ident, "check") {
        TokenType::Check
    } else if same_text(ident, "None") {
        TokenType::None_
    } else {
        TokenType::Ident
    }
}

/// The kind that a run of leading whitespace of `width` bytes has when it is
/// judged on its own, with no enclosing block to compare it with: no width
/// closes a block, one or two steps of four open one, and any other width is
/// malformed.
pub open spec fn indent_kind(width: nat) -> TokenType {
    if width == 0 {
        TokenType::Dedent
    } else if width == 4 || width == 8 {
        TokenType::Indent
    } else {
        TokenType::Illegal
    }
}

/// A run of leading whitespace is a structural token or malformed, whatever
/// its width; it is never an identifier.
pub proof fn lemma_indent_kind_is_structural(width: nat)
    ensures
        indent_kind(width) == TokenType::Indent || indent_kind(width) == TokenType::Dedent
            || indent_kind(width) == TokenType::Illegal,
        indent_kind(width) != TokenType::Ident,
{
}

/// Classifies a run of leading whitespace by its length in bytes alone: an
/// empty run is a `Dedent`, a run of four or eight bytes an `Indent`, and a
/// run of any other length is `Illegal`.
pub fn lookup_indent(ident: &str) -> (kind: TokenType)
    ensures
        kind == indent_kind(vstd::utf8::encode_utf8(ident@).len()),
{
    let width: usize = ident.as_bytes().len();
    if width == 0 {
        TokenType::Dedent
    } else if width == 4 || width == 8 {
        TokenType::Indent
    } else {
        TokenType::Illegal
    }
}

/// A token of kind `token_type` whose text is the single byte `ch`, standing
/// at `line` and `column`.
pub fn new_token(token_type: TokenType, ch: u8, line: usize, column: usize) -> (token: Token)
    ensures
        token@ == (TokenView {
            kind: token_type,
            literal: text_of(seq![ch]),
            line: line as nat,
            column: column as nat,
        }),
{
    let mut literal = String::new();
    literal.push(ch as char);
    assert(literal@ =~= text_of(seq![ch]));
    Token { token_type, literal, line, column }
}

} // verus!
