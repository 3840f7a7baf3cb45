use carrion_lang::lexer::Lexer;
use carrion_lang::token::{Token, TokenType};

fn tokens(source: &str) -> Vec<Token> {
    let mut lexer = Lexer::new(String::from(source));
    let mut out = Vec::new();
    for _ in 0..4 * source.len() + 8 {
        let token = lexer.next_token();
        let done = token.token_type == TokenType::EOF;
        out.push(token);
        if done {
            return out;
        }
    }
    panic!("no end of input after {} tokens", out.len());
}

fn kinds(source: &str) -> Vec<TokenType> {
    tokens(source).iter().map(|t| t.token_type).collect()
}

fn pairs(source: &str) -> Vec<(TokenType, String)> {
    tokens(source).into_iter().map(|t| (t.token_type, t.literal)).collect()
}

fn pair(kind: TokenType, literal: &str) -> (TokenType, String) {
    (kind, String::from(literal))
}

#[test]
fn assignment_scenario() {
    assert_eq!(
        pairs("x = 1"),
        vec![
            pair(TokenType::Ident, "x"),
            pair(TokenType::Assign, "="),
            pair(TokenType::Int, "1"),
            pair(TokenType::EOF, ""),
        ]
    );
}

#[test]
fn spell_block_scenario() {
    assert_eq!(
        kinds("spell init():\n    stop\n"),
        vec![
            TokenType::Spell,
            TokenType::Init,
            TokenType::LParen,
            TokenType::RParen,
            TokenType::Colon,
            TokenType::Newline,
            TokenType::Indent,
            TokenType::Stop,
            TokenType::Newline,
            TokenType::Dedent,
            TokenType::EOF,
        ]
    );
}

#[test]
fn unterminated_string_scenario() {
    assert_eq!(
        pairs("\"unterminated"),
        vec![pair(TokenType::Illegal, "\"unterminated"), pair(TokenType::EOF, "")]
    );
}

#[test]
fn float_scenario() {
    assert_eq!(
        pairs("1.5 + 2"),
        vec![
            pair(TokenType::Float, "1.5"),
            pair(TokenType::Plus, "+"),
            pair(TokenType::Int, "2"),
            pair(TokenType::EOF, ""),
        ]
    );
}

#[test]
fn empty_input_scenario() {
    assert_eq!(
        tokens(""),
        vec![Token { token_type: TokenType::EOF, literal: String::new(), line: 1, column: 1 }]
    );
}

#[test]
fn end_of_input_repeats() {
    for source in ["", "x", "x\n", "if x:\n    y", "if x:\n  if y:\n    z\n", "\"open", "  "] {
        let mut lexer = Lexer::new(String::from(source));
        let mut first = lexer.next_token();
        let mut calls = 0;
        while first.token_type != TokenType::EOF {
            first = lexer.next_token();
            calls += 1;
            assert!(calls < 100);
        }
        assert_eq!(first.literal, "");
        for _ in 0..5 {
            let again = lexer.next_token();
            assert_eq!(again, first, "{:?}", source);
        }
    }
}

#[test]
fn indent_and_dedent_pair_up_for_any_width() {
    for indent in [" ", "  ", "    ", "        ", "\t", "\t\t", "             "] {
        let source = format!("a:\n{}b\nc\n", indent);
        assert_eq!(
            pairs(&source),
            vec![
                pair(TokenType::Ident, "a"),
                pair(TokenType::Colon, ":"),
                pair(TokenType::Newline, "\n"),
                pair(TokenType::Indent, indent),
                pair(TokenType::Ident, "b"),
                pair(TokenType::Newline, "\n"),
                pair(TokenType::Dedent, ""),
                pair(TokenType::Ident, "c"),
                pair(TokenType::Newline, "\n"),
                pair(TokenType::EOF, ""),
            ],
            "{:?}",
            indent
        );
    }
}

#[test]
fn longest_operator_wins() {
    assert_eq!(
        pairs("a **= b"),
        vec![
            pair(TokenType::Ident, "a"),
            pair(TokenType::Exponent, "**"),
            pair(TokenType::Assign, "="),
            pair(TokenType::Ident, "b"),
            pair(TokenType::EOF, ""),
        ]
    );
    assert_eq!(
        pairs("a++"),
        vec![
            pair(TokenType::Ident, "a"),
            pair(TokenType::PlusIncrement, "++"),
            pair(TokenType::EOF, ""),
        ]
    );
    assert_eq!(
        kinds("+++ --- *** === !== <<= >>= <<< >>>"),
        vec![
            TokenType::PlusIncrement,
            TokenType::Plus,
            TokenType::MinusDecrement,
            TokenType::Minus,
            TokenType::Exponent,
            TokenType::Asterisk,
            TokenType::Eq,
            TokenType::Assign,
            TokenType::NotEq,
            TokenType::Assign,
            TokenType::LShift,
            TokenType::Assign,
            TokenType::RShift,
            TokenType::Assign,
            TokenType::LShift,
            TokenType::Lt,
            TokenType::RShift,
            TokenType::Gt,
            TokenType::EOF,
        ]
    );
}

#[test]
fn every_operator_and_delimiter() {
    assert_eq!(
        pairs("** += -= *= /= ++ -- == != <= >= << >> < > = + - * / % ! & @ , : | . ^ ~ ( ) { } [ ] _"),
        vec![
            pair(TokenType::Exponent, "**"),
            pair(TokenType::Increment, "+="),
            pair(TokenType::Decrement, "-="),
            pair(TokenType::MultAssgn, "*="),
            pair(TokenType::DivAssgn, "/="),
            pair(TokenType::PlusIncrement, "++"),
            pair(TokenType::MinusDecrement, "--"),
            pair(TokenType::Eq, "=="),
            pair(TokenType::NotEq, "!="),
            pair(TokenType::Le, "<="),
            pair(TokenType::Ge, ">="),
            pair(TokenType::LShift, "<<"),
            pair(TokenType::RShift, ">>"),
            pair(TokenType::Lt, "<"),
            pair(TokenType::Gt, ">"),
            pair(TokenType::Assign, "="),
            pair(TokenType::Plus, "+"),
            pair(TokenType::Minus, "-"),
            pair(TokenType::Asterisk, "*"),
            pair(TokenType::Slash, "/"),
            pair(TokenType::Mod, "%"),
            pair(TokenType::Bang, "!"),
            pair(TokenType::Ampersand, "&"),
            pair(TokenType::At, "@"),
            pair(TokenType::Comma, ","),
            pair(TokenType::Colon, ":"),
            pair(TokenType::Pipe, "|"),
            pair(TokenType::Dot, "."),
            pair(TokenType::Xor, "^"),
            pair(TokenType::Tilde, "~"),
            pair(TokenType::LParen, "("),
            pair(TokenType::RParen, ")"),
            pair(TokenType::LBrace, "{"),
            pair(TokenType::RBrace, "}"),
            pair(TokenType::LBrack, "["),
            pair(TokenType::RBrack, "]"),
            pair(TokenType::Underscore, "_"),
            pair(TokenType::EOF, ""),
        ]
    );
}

#[test]
fn operators_need_no_blanks_between() {
    assert_eq!(
        kinds("a<=b>=c!=d==e"),
        vec![
            TokenType::Ident,
            TokenType::Le,
            TokenType::Ident,
            TokenType::Ge,
            TokenType::Ident,
            TokenType::NotEq,
            TokenType::Ident,
            TokenType::Eq,
            TokenType::Ident,
            TokenType::EOF,
        ]
    );
    assert_eq!(kinds("=<"), vec![TokenType::Assign, TokenType::Lt, TokenType::EOF]);
    assert_eq!(kinds("*"), vec![TokenType::Asterisk, TokenType::EOF]);
}

#[test]
fn unknown_bytes_are_illegal_one_by_one() {
    assert_eq!(
        pairs("a $ ? b"),
        vec![
            pair(TokenType::Ident, "a"),
            pair(TokenType::Illegal, "$"),
            pair(TokenType::Illegal, "?"),
            pair(TokenType::Ident, "b"),
            pair(TokenType::EOF, ""),
        ]
    );
    assert_eq!(
        pairs("\r\0;`'\\"),
        vec![
            pair(TokenType::Illegal, "\r"),
            pair(TokenType::Illegal, "\0"),
            pair(TokenType::Illegal, ";"),
            pair(TokenType::Illegal, "`"),
            pair(TokenType::Illegal, "'"),
            pair(TokenType::Illegal, "\\"),
            pair(TokenType::EOF, ""),
        ]
    );
}

#[test]
fn bytes_beyond_ascii_read_as_their_code_points() {
    // U+00E9 is the two bytes C3 A9 in UTF-8
    assert_eq!(
        pairs("\u{e9}"),
        vec![
            pair(TokenType::Illegal, "\u{c3}"),
            pair(TokenType::Illegal, "\u{a9}"),
            pair(TokenType::EOF, ""),
        ]
    );
    assert_eq!(
        pairs("\"\u{e9}\""),
        vec![pair(TokenType::String, "\u{c3}\u{a9}"), pair(TokenType::EOF, "")]
    );
}

#[test]
fn words_keywords_and_underscore() {
    assert_eq!(
        pairs("spell spells _ _x x_ __ a1 if iffy None none f fx"),
        vec![
            pair(TokenType::Spell, "spell"),
            pair(TokenType::Ident, "spells"),
            pair(TokenType::Underscore, "_"),
            pair(TokenType::Ident, "_x"),
            pair(TokenType::Ident, "x_"),
            pair(TokenType::Ident, "__"),
            pair(TokenType::Ident, "a1"),
            pair(TokenType::If, "if"),
            pair(TokenType::Ident, "iffy"),
            pair(TokenType::None_, "None"),
            pair(TokenType::Ident, "none"),
            pair(TokenType::Ident, "f"),
            pair(TokenType::Ident, "fx"),
            pair(TokenType::EOF, ""),
        ]
    );
}

#[test]
fn every_keyword_is_scanned_as_itself() {
    assert_eq!(
        kinds(
            "import match case spell self init spellbook True False if otherwise else for in \
             while stop skip ignore and or not return attempt resolve ensnare raise as arcane \
             arcanespell super check None"
        ),
        vec![
            TokenType::Import,
            TokenType::Match,
            TokenType::Case,
            TokenType::Spell,
            TokenType::Self_,
            TokenType::Init,
            TokenType::Spellbook,
            TokenType::True_,
            TokenType::False_,
            TokenType::If,
            TokenType::Otherwise,
            TokenType::Else,
            TokenType::For,
            TokenType::In,
            TokenType::While,
            TokenType::Stop,
            TokenType::Skip,
            TokenType::Ignore,
            TokenType::And,
            TokenType::Or,
            TokenType::Not,
            TokenType::Return,
            TokenType::Attempt,
            TokenType::Resolve,
            TokenType::Ensnare,
            TokenType::Raise,
            TokenType::As,
            TokenType::Arcane,
            TokenType::ArcaneSpell,
            TokenType::Super,
            TokenType::Check,
            TokenType::None_,
            TokenType::EOF,
        ]
    );
}

#[test]
fn numbers() {
    assert_eq!(
        pairs("0 42 3.14 10.0 007"),
        vec![
            pair(TokenType::Int, "0"),
            pair(TokenType::Int, "42"),
            pair(TokenType::Float, "3.14"),
            pair(TokenType::Float, "10.0"),
            pair(TokenType::Int, "007"),
            pair(TokenType::EOF, ""),
        ]
    );
    assert_eq!(
        pairs("1.5.2"),
        vec![
            pair(TokenType::Float, "1.5"),
            pair(TokenType::Dot, "."),
            pair(TokenType::Int, "2"),
            pair(TokenType::EOF, ""),
        ]
    );
    assert_eq!(
        pairs("12abc"),
        vec![pair(TokenType::Int, "12"), pair(TokenType::Ident, "abc"), pair(TokenType::EOF, "")]
    );
    assert_eq!(
        pairs(".5"),
        vec![pair(TokenType::Dot, "."), pair(TokenType::Int, "5"), pair(TokenType::EOF, "")]
    );
}

#[test]
fn a_dot_without_digits_is_a_malformed_number() {
    assert_eq!(pairs("1."), vec![pair(TokenType::Illegal, "1."), pair(TokenType::EOF, "")]);
    assert_eq!(
        pairs("12. + 3"),
        vec![
            pair(TokenType::Illegal, "12."),
            pair(TokenType::Plus, "+"),
            pair(TokenType::Int, "3"),
            pair(TokenType::EOF, ""),
        ]
    );
    assert_eq!(
        pairs("1.x"),
        vec![pair(TokenType::Illegal, "1."), pair(TokenType::Ident, "x"), pair(TokenType::EOF, "")]
    );
    assert_eq!(
        pairs("1..2"),
        vec![
            pair(TokenType::Illegal, "1."),
            pair(TokenType::Dot, "."),
            pair(TokenType::Int, "2"),
            pair(TokenType::EOF, ""),
        ]
    );
}

#[test]
fn strings_and_escapes() {
    assert_eq!(pairs("\"\""), vec![pair(TokenType::String, ""), pair(TokenType::EOF, "")]);
    assert_eq!(
        pairs("\"hello world\" x"),
        vec![
            pair(TokenType::String, "hello world"),
            pair(TokenType::Ident, "x"),
            pair(TokenType::EOF, ""),
        ]
    );
    assert_eq!(
        pairs(r#""a\nb\tc\"d\\e""#),
        vec![pair(TokenType::String, "a\nb\tc\"d\\e"), pair(TokenType::EOF, "")]
    );
    // an escape that is not known stays as written
    assert_eq!(
        pairs(r#""a\qb\r""#),
        vec![pair(TokenType::String, "a\\qb\\r"), pair(TokenType::EOF, "")]
    );
    assert_eq!(
        pairs(r#""\\""#),
        vec![pair(TokenType::String, "\\"), pair(TokenType::EOF, "")]
    );
    assert_eq!(
        pairs("\"# no comment\" # comment"),
        vec![pair(TokenType::String, "# no comment"), pair(TokenType::EOF, "")]
    );
}

#[test]
fn unterminated_strings() {
    assert_eq!(
        pairs("x = \"abc\ny"),
        vec![
            pair(TokenType::Ident, "x"),
            pair(TokenType::Assign, "="),
            pair(TokenType::Illegal, "\"abc"),
            pair(TokenType::Newline, "\n"),
            pair(TokenType::Ident, "y"),
            pair(TokenType::EOF, ""),
        ]
    );
    assert_eq!(pairs("\""), vec![pair(TokenType::Illegal, "\""), pair(TokenType::EOF, "")]);
    assert_eq!(
        pairs(r#""abc\"#),
        vec![pair(TokenType::Illegal, "\"abc\\"), pair(TokenType::EOF, "")]
    );
    assert_eq!(
        pairs(r#""abc\""#),
        vec![pair(TokenType::Illegal, "\"abc\\\""), pair(TokenType::EOF, "")]
    );
    assert_eq!(
        pairs("\"a\\\nb\""),
        vec![
            pair(TokenType::Illegal, "\"a\\"),
            pair(TokenType::Newline, "\n"),
            pair(TokenType::Ident, "b"),
            pair(TokenType::Illegal, "\""),
            pair(TokenType::EOF, ""),
        ]
    );
    assert_eq!(
        pairs("f\"open {x}"),
        vec![pair(TokenType::Illegal, "f\"open {x}"), pair(TokenType::EOF, "")]
    );
}

#[test]
fn doc_strings() {
    assert_eq!(
        pairs("\"\"\"doc\"\"\""),
        vec![pair(TokenType::DocString, "doc"), pair(TokenType::EOF, "")]
    );
    assert_eq!(
        pairs("\"\"\"\"\"\""),
        vec![pair(TokenType::DocString, ""), pair(TokenType::EOF, "")]
    );
    assert_eq!(
        pairs("\"\"\"one\n    two \"quoted\" \"\"\nthree\"\"\" x"),
        vec![
            pair(TokenType::DocString, "one\n    two \"quoted\" \"\"\nthree"),
            pair(TokenType::Ident, "x"),
            pair(TokenType::EOF, ""),
        ]
    );
    assert_eq!(
        pairs("\"\"\"a\\\"\"\"b\\n\"\"\""),
        vec![pair(TokenType::DocString, "a\"\"\"b\n"), pair(TokenType::EOF, "")]
    );
}

#[test]
fn unterminated_doc_string_covers_the_rest() {
    assert_eq!(
        pairs("x \"\"\"doc\nmore\"\"\ny\n"),
        vec![
            pair(TokenType::Ident, "x"),
            pair(TokenType::Illegal, "\"\"\"doc\nmore\"\"\ny\n"),
            pair(TokenType::EOF, ""),
        ]
    );
    assert_eq!(
        pairs("\"\"\""),
        vec![pair(TokenType::Illegal, "\"\"\""), pair(TokenType::EOF, "")]
    );
}

#[test]
fn formatted_strings_keep_their_braces() {
    assert_eq!(
        pairs("f\"x = {x + 1}!\""),
        vec![pair(TokenType::FString, "x = {x + 1}!"), pair(TokenType::EOF, "")]
    );
    assert_eq!(
        pairs("f\"\"\"{a}\n{b}\"\"\""),
        vec![pair(TokenType::FString, "{a}\n{b}"), pair(TokenType::EOF, "")]
    );
    assert_eq!(
        pairs("f \"s\" ff\"s\""),
        vec![
            pair(TokenType::Ident, "f"),
            pair(TokenType::String, "s"),
            pair(TokenType::Ident, "ff"),
            pair(TokenType::String, "s"),
            pair(TokenType::EOF, ""),
        ]
    );
}

#[test]
fn comments_yield_nothing() {
    assert_eq!(
        pairs("x # the rest = 1 \"\n# all of it\ny"),
        vec![
            pair(TokenType::Ident, "x"),
            pair(TokenType::Newline, "\n"),
            pair(TokenType::Newline, "\n"),
            pair(TokenType::Ident, "y"),
            pair(TokenType::EOF, ""),
        ]
    );
    assert_eq!(kinds("# only a comment"), vec![TokenType::EOF]);
    assert_eq!(kinds("#"), vec![TokenType::EOF]);
}

#[test]
fn blanks_are_skipped() {
    assert_eq!(
        kinds("  \t x \t\t=  1  "),
        vec![TokenType::Ident, TokenType::Assign, TokenType::Int, TokenType::EOF]
    );
    assert_eq!(kinds("   "), vec![TokenType::EOF]);
    // the first line opens no block, however far it is indented
    assert_eq!(
        kinds("    x\ny\n"),
        vec![
            TokenType::Ident,
            TokenType::Newline,
            TokenType::Ident,
            TokenType::Newline,
            TokenType::EOF,
        ]
    );
}

#[test]
fn empty_lines_open_and_close_nothing() {
    assert_eq!(
        kinds("a:\n    b\n\n  \n        # note\n\t\n    c\n"),
        vec![
            TokenType::Ident,
            TokenType::Colon,
            TokenType::Newline,
            TokenType::Indent,
            TokenType::Ident,
            TokenType::Newline,
            TokenType::Newline,
            TokenType::Newline,
            TokenType::Newline,
            TokenType::Newline,
            TokenType::Ident,
            TokenType::Newline,
            TokenType::Dedent,
            TokenType::EOF,
        ]
    );
}

#[test]
fn nested_blocks_close_one_dedent_each() {
    assert_eq!(
        kinds("a:\n  b:\n    c:\n      d\ne\n"),
        vec![
            TokenType::Ident,
            TokenType::Colon,
            TokenType::Newline,
            TokenType::Indent,
            TokenType::Ident,
            TokenType::Colon,
            TokenType::Newline,
            TokenType::Indent,
            TokenType::Ident,
            TokenType::Colon,
            TokenType::Newline,
            TokenType::Indent,
            TokenType::Ident,
            TokenType::Newline,
            TokenType::Dedent,
            TokenType::Dedent,
            TokenType::Dedent,
            TokenType::Ident,
            TokenType::Newline,
            TokenType::EOF,
        ]
    );
    assert_eq!(
        kinds("a\n  b\n    c\n  d\n"),
        vec![
            TokenType::Ident,
            TokenType::Newline,
            TokenType::Indent,
            TokenType::Ident,
            TokenType::Newline,
            TokenType::Indent,
            TokenType::Ident,
            TokenType::Newline,
            TokenType::Dedent,
            TokenType::Ident,
            TokenType::Newline,
            TokenType::Dedent,
            TokenType::EOF,
        ]
    );
}

#[test]
fn a_dedent_to_no_open_level_is_illegal() {
    assert_eq!(
        pairs("a\n    b\n        c\n  d\n"),
        vec![
            pair(TokenType::Ident, "a"),
            pair(TokenType::Newline, "\n"),
            pair(TokenType::Indent, "    "),
            pair(TokenType::Ident, "b"),
            pair(TokenType::Newline, "\n"),
            pair(TokenType::Indent, "        "),
            pair(TokenType::Ident, "c"),
            pair(TokenType::Newline, "\n"),
            pair(TokenType::Illegal, "  "),
            pair(TokenType::Dedent, ""),
            pair(TokenType::Dedent, ""),
            pair(TokenType::Ident, "d"),
            pair(TokenType::Newline, "\n"),
            pair(TokenType::EOF, ""),
        ]
    );
    // the level that matched nothing was not opened
    assert_eq!(
        kinds("a\n    b\n  c\n  d\n"),
        vec![
            TokenType::Ident,
            TokenType::Newline,
            TokenType::Indent,
            TokenType::Ident,
            TokenType::Newline,
            TokenType::Illegal,
            TokenType::Dedent,
            TokenType::Ident,
            TokenType::Newline,
            TokenType::Indent,
            TokenType::Ident,
            TokenType::Newline,
            TokenType::Dedent,
            TokenType::EOF,
        ]
    );
}

#[test]
fn mixed_tabs_and_spaces_are_illegal() {
    assert_eq!(
        pairs("a\n \tb\n"),
        vec![
            pair(TokenType::Ident, "a"),
            pair(TokenType::Newline, "\n"),
            pair(TokenType::Illegal, " \t"),
            pair(TokenType::Ident, "b"),
            pair(TokenType::Newline, "\n"),
            pair(TokenType::EOF, ""),
        ]
    );
    assert_eq!(
        kinds("a\n\t b\n\t\tc\n"),
        vec![
            TokenType::Ident,
            TokenType::Newline,
            TokenType::Illegal,
            TokenType::Ident,
            TokenType::Newline,
            TokenType::Indent,
            TokenType::Ident,
            TokenType::Newline,
            TokenType::Dedent,
            TokenType::EOF,
        ]
    );
}

#[test]
fn open_blocks_are_closed_at_the_end() {
    // without a newline at the end, one is supplied before the blocks close
    assert_eq!(
        pairs("a:\n  b:\n    c"),
        vec![
            pair(TokenType::Ident, "a"),
            pair(TokenType::Colon, ":"),
            pair(TokenType::Newline, "\n"),
            pair(TokenType::Indent, "  "),
            pair(TokenType::Ident, "b"),
            pair(TokenType::Colon, ":"),
            pair(TokenType::Newline, "\n"),
            pair(TokenType::Indent, "    "),
            pair(TokenType::Ident, "c"),
            pair(TokenType::Newline, ""),
            pair(TokenType::Dedent, ""),
            pair(TokenType::Dedent, ""),
            pair(TokenType::EOF, ""),
        ]
    );
    assert_eq!(
        kinds("a:\n  b:\n    c\n"),
        vec![
            TokenType::Ident,
            TokenType::Colon,
            TokenType::Newline,
            TokenType::Indent,
            TokenType::Ident,
            TokenType::Colon,
            TokenType::Newline,
            TokenType::Indent,
            TokenType::Ident,
            TokenType::Newline,
            TokenType::Dedent,
            TokenType::Dedent,
            TokenType::EOF,
        ]
    );
    assert_eq!(
        kinds("a:\n  b\n   "),
        vec![
            TokenType::Ident,
            TokenType::Colon,
            TokenType::Newline,
            TokenType::Indent,
            TokenType::Ident,
            TokenType::Newline,
            TokenType::Dedent,
            TokenType::EOF,
        ]
    );
}

#[test]
fn tokens_carry_line_and_column() {
    let all = tokens("x = 10\n  yy(\"s\")\n\"\"\"a\nb\"\"\" z\n");
    let places: Vec<(TokenType, usize, usize)> =
        all.iter().map(|t| (t.token_type, t.line, t.column)).collect();
    assert_eq!(
        places,
        vec![
            (TokenType::Ident, 1, 1),
            (TokenType::Assign, 1, 3),
            (TokenType::Int, 1, 5),
            (TokenType::Newline, 1, 7),
            (TokenType::Indent, 2, 1),
            (TokenType::Ident, 2, 3),
            (TokenType::LParen, 2, 5),
            (TokenType::String, 2, 6),
            (TokenType::RParen, 2, 9),
            (TokenType::Newline, 2, 10),
            (TokenType::Dedent, 3, 1),
            (TokenType::DocString, 3, 1),
            (TokenType::Ident, 4, 6),
            (TokenType::Newline, 4, 7),
            (TokenType::EOF, 5, 1),
        ]
    );
}

#[test]
fn complaints_about_indentation_stand_at_the_line_start() {
    let all = tokens("a\n    b\n  c");
    let places: Vec<(TokenType, usize, usize)> =
        all.iter().map(|t| (t.token_type, t.line, t.column)).collect();
    assert_eq!(
        places,
        vec![
            (TokenType::Ident, 1, 1),
            (TokenType::Newline, 1, 2),
            (TokenType::Indent, 2, 1),
            (TokenType::Ident, 2, 5),
            (TokenType::Newline, 2, 6),
            (TokenType::Illegal, 3, 1),
            (TokenType::Dedent, 3, 3),
            (TokenType::Ident, 3, 3),
            (TokenType::EOF, 3, 4),
        ]
    );
}

#[test]
fn read_char_moves_one_byte() {
    let mut lexer = Lexer::new(String::from("ab\ncd"));
    lexer.read_char();
    let token = lexer.next_token();
    assert_eq!(
        token,
        Token { token_type: TokenType::Ident, literal: String::from("b"), line: 1, column: 2 }
    );
    lexer.read_char();
    lexer.read_char();
    let token = lexer.next_token();
    assert_eq!(
        token,
        Token { token_type: TokenType::Ident, literal: String::from("d"), line: 2, column: 2 }
    );
    lexer.read_char();
    lexer.read_char();
    let token = lexer.next_token();
    assert_eq!(
        token,
        Token { token_type: TokenType::EOF, literal: String::new(), line: 2, column: 3 }
    );
}
