use carrion_lang::token::{lookup_ident, lookup_indent, new_token, Token, TokenType};

#[test]
fn test_lookup_ident_keyword() {
    assert_eq!(lookup_ident("spell"), TokenType::Spell);
}

#[test]
fn test_lookup_spellbook_terms() {
    assert_eq!(lookup_ident("init"), TokenType::Init);
}

#[test]
fn every_keyword_has_its_kind() {
    let table = vec![
        ("import", TokenType::Import),
        ("match", TokenType::Match),
        ("case", TokenType::Case),
        ("spell", TokenType::Spell),
        ("self", TokenType::Self_),
        ("init", TokenType::Init),
        ("spellbook", TokenType::Spellbook),
        ("True", TokenType::True_),
        ("False", TokenType::False_),
        ("if", TokenType::If),
        ("otherwise", TokenType::Otherwise),
        ("else", TokenType::Else),
        ("for", TokenType::For),
        ("in", TokenType::In),
        ("while", TokenType::While),
        ("stop", TokenType::Stop),
        ("skip", TokenType::Skip),
        ("ignore", TokenType::Ignore),
        ("and", TokenType::And),
        ("or", TokenType::Or),
        ("not", TokenType::Not),
        ("return", TokenType::Return),
        ("attempt", TokenType::Attempt),
        ("resolve", TokenType::Resolve),
        ("ensnare", TokenType::Ensnare),
        ("raise", TokenType::Raise),
        ("as", TokenType::As),
        ("arcane", TokenType::Arcane),
        ("arcanespell", TokenType::ArcaneSpell),
        ("super", TokenType::Super),
        ("check", TokenType::Check),
        ("None", TokenType::None_),
    ];
    assert_eq!(table.len(), 32);
    for (i, (spelling, kind)) in table.iter().enumerate() {
        assert_eq!(lookup_ident(spelling), *kind, "{}", spelling);
        for (other, _) in table.iter().skip(i + 1) {
            assert_ne!(lookup_ident(spelling), lookup_ident(other), "{} {}", spelling, other);
        }
    }
}

#[test]
fn other_words_are_identifiers() {
    for word in ["x", "spells", "Spell", "SPELL", "true", "false", "none", "NONE", "iff", "i",
        "arcane_spell", "arcanespells", "_", "__init__", "import1", "", "spell ", " spell"] {
        assert_eq!(lookup_ident(word), TokenType::Ident, "{:?}", word);
    }
}

#[test]
fn keywords_are_not_matched_by_prefix_or_beyond_ascii() {
    assert_eq!(lookup_ident("in"), TokenType::In);
    assert_eq!(lookup_ident("ini"), TokenType::Ident);
    assert_eq!(lookup_ident("init"), TokenType::Init);
    assert_eq!(lookup_ident("inité"), TokenType::Ident);
    assert_eq!(lookup_ident("é"), TokenType::Ident);
}

#[test]
fn lookup_indent_goes_by_width() {
    assert_eq!(lookup_indent(""), TokenType::Dedent);
    assert_eq!(lookup_indent("    "), TokenType::Indent);
    assert_eq!(lookup_indent("        "), TokenType::Indent);
    assert_eq!(lookup_indent("\t\t\t\t"), TokenType::Indent);
    assert_eq!(lookup_indent(" "), TokenType::Illegal);
    assert_eq!(lookup_indent("  "), TokenType::Illegal);
    assert_eq!(lookup_indent("     "), TokenType::Illegal);
    assert_eq!(lookup_indent("            "), TokenType::Illegal);
    // a run of blanks is never an identifier
    for run in ["", " ", "    ", "        ", "\t", "\t\t\t\t", "      "] {
        assert_ne!(lookup_indent(run), TokenType::Ident, "{:?}", run);
    }
    // the width is counted in bytes
    assert_eq!(lookup_indent("éé"), TokenType::Indent);
}

#[test]
fn new_token_holds_the_byte_as_text() {
    let token = new_token(TokenType::Plus, b'+', 3, 7);
    assert_eq!(
        token,
        Token { token_type: TokenType::Plus, literal: String::from("+"), line: 3, column: 7 }
    );
    let token = new_token(TokenType::Illegal, 0xE9, 1, 1);
    assert_eq!(token.literal, "\u{e9}");
    let token = new_token(TokenType::Illegal, 0, 1, 1);
    assert_eq!(token.literal, "\0");
}
