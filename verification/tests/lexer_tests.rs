use langfront::lexer::{
    lex, lines_fit, scan_buffer, scan_checked, tokenize, LexicalFailure, Token, TokenType,
};

fn kinds(src: &str) -> Vec<TokenType> {
    tokenize(src).iter().map(|t| t.ttype).collect()
}

fn texts(src: &str) -> Vec<String> {
    tokenize(src).iter().map(|t| t.value.clone()).collect()
}

fn token(ttype: TokenType, value: &str, line_num: u32) -> Token {
    Token { ttype, value: value.to_string(), line_num }
}

#[test]
fn empty_buffer_gives_one_eof() {
    assert_eq!(tokenize(""), vec![token(TokenType::Eof, "", 1)]);
}

#[test]
fn blank_buffer_gives_eof_on_last_line() {
    assert_eq!(tokenize("  \n\t\n "), vec![token(TokenType::Eof, "", 3)]);
}

#[test]
fn declaration_is_tokenized() {
    assert_eq!(
        tokenize("let x = 10;"),
        vec![
            token(TokenType::Let, "let", 1),
            token(TokenType::Iden, "x", 1),
            token(TokenType::Equ, "=", 1),
            token(TokenType::Num, "10", 1),
            token(TokenType::Scln, ";", 1),
            token(TokenType::Eof, "", 1),
        ]
    );
}

#[test]
fn single_character_symbols() {
    assert_eq!(
        kinds("+ - * / % ( ) { } , ;"),
        vec![
            TokenType::Add,
            TokenType::Sub,
            TokenType::Mul,
            TokenType::Div,
            TokenType::Mod,
            TokenType::Opt,
            TokenType::Cpt,
            TokenType::Ocl,
            TokenType::Ccl,
            TokenType::Com,
            TokenType::Scln,
            TokenType::Eof,
        ]
    );
    assert_eq!(
        texts("+-*/%(){},;"),
        vec!["+", "-", "*", "/", "%", "(", ")", "{", "}", ",", ";", ""]
    );
}

#[test]
fn two_character_operators_and_their_fallbacks() {
    assert_eq!(
        tokenize("== <= >= = < >"),
        vec![
            token(TokenType::Eqv, "==", 1),
            token(TokenType::Leq, "<=", 1),
            token(TokenType::Geq, ">=", 1),
            token(TokenType::Equ, "=", 1),
            token(TokenType::Les, "<", 1),
            token(TokenType::Gre, ">", 1),
            token(TokenType::Eof, "", 1),
        ]
    );
}

#[test]
fn operator_at_end_of_buffer_falls_back() {
    assert_eq!(kinds("<"), vec![TokenType::Les, TokenType::Eof]);
    assert_eq!(kinds(">"), vec![TokenType::Gre, TokenType::Eof]);
    assert_eq!(kinds("="), vec![TokenType::Equ, TokenType::Eof]);
}

#[test]
fn three_equals_signs_are_two_tokens() {
    assert_eq!(kinds("==="), vec![TokenType::Eqv, TokenType::Equ, TokenType::Eof]);
    assert_eq!(kinds("<=="), vec![TokenType::Leq, TokenType::Equ, TokenType::Eof]);
}

#[test]
fn keywords_have_their_own_types() {
    assert_eq!(
        kinds("loop if elif else true false break return import pub fn and or let"),
        vec![
            TokenType::Loop,
            TokenType::If,
            TokenType::Elif,
            TokenType::Else,
            TokenType::True,
            TokenType::False,
            TokenType::Break,
            TokenType::Return,
            TokenType::Import,
            TokenType::Pub,
            TokenType::Func,
            TokenType::And,
            TokenType::Or,
            TokenType::Let,
            TokenType::Eof,
        ]
    );
}

#[test]
fn keywords_keep_their_text() {
    assert_eq!(texts("loop fn"), vec!["loop", "fn", ""]);
}

#[test]
fn words_that_are_no_keywords_are_identifiers() {
    assert_eq!(
        tokenize("iffy Let _a1 x_2 lets"),
        vec![
            token(TokenType::Iden, "iffy", 1),
            token(TokenType::Iden, "Let", 1),
            token(TokenType::Iden, "_a1", 1),
            token(TokenType::Iden, "x_2", 1),
            token(TokenType::Iden, "lets", 1),
            token(TokenType::Eof, "", 1),
        ]
    );
}

#[test]
fn removed_type_keywords_are_identifiers() {
    assert_eq!(
        kinds("i8 tensor const"),
        vec![TokenType::Iden, TokenType::Iden, TokenType::Iden, TokenType::Eof]
    );
}

#[test]
fn numbers_take_digits_and_one_dot() {
    assert_eq!(
        tokenize("0 42 1.5 7. 007"),
        vec![
            token(TokenType::Num, "0", 1),
            token(TokenType::Num, "42", 1),
            token(TokenType::Num, "1.5", 1),
            token(TokenType::Num, "7.", 1),
            token(TokenType::Num, "007", 1),
            token(TokenType::Eof, "", 1),
        ]
    );
}

#[test]
fn number_ends_where_a_word_starts() {
    assert_eq!(
        tokenize("12abc"),
        vec![
            token(TokenType::Num, "12", 1),
            token(TokenType::Iden, "abc", 1),
            token(TokenType::Eof, "", 1),
        ]
    );
}

#[test]
fn minus_is_never_part_of_a_number() {
    assert_eq!(
        tokenize("-5"),
        vec![
            token(TokenType::Sub, "-", 1),
            token(TokenType::Num, "5", 1),
            token(TokenType::Eof, "", 1),
        ]
    );
}

#[test]
fn leading_dot_starts_no_token() {
    assert_eq!(tokenize(".5"), vec![]);
}

#[test]
fn malformed_number_is_a_lexical_failure() {
    let mut pos = 0usize;
    let mut line = 1u32;
    assert_eq!(lex("1.2.3;", &mut pos, &mut line), None);
    assert_eq!(pos, 3);
    assert_eq!(line, 1);
    assert_eq!(tokenize("1.2.3;"), vec![]);
}

#[test]
fn malformed_number_after_other_tokens() {
    assert_eq!(
        tokenize("x = 1..2;"),
        vec![token(TokenType::Iden, "x", 1), token(TokenType::Equ, "=", 1)]
    );
}

#[test]
fn string_literal_is_unescaped() {
    assert_eq!(
        tokenize("\"he\\\"llo\\n\\\\\""),
        vec![token(TokenType::Str, "he\"llo\n\\", 1), token(TokenType::Eof, "", 1)]
    );
}

#[test]
fn empty_string_literal() {
    assert_eq!(
        tokenize("\"\""),
        vec![token(TokenType::Str, "", 1), token(TokenType::Eof, "", 1)]
    );
}

#[test]
fn string_literal_may_hold_anything_else() {
    assert_eq!(
        tokenize("\"a # b ; 1.2.3 @\" x"),
        vec![
            token(TokenType::Str, "a # b ; 1.2.3 @", 1),
            token(TokenType::Iden, "x", 1),
            token(TokenType::Eof, "", 1),
        ]
    );
}

#[test]
fn line_feed_inside_string_does_not_count_as_line() {
    assert_eq!(
        tokenize("\"a\nb\" x\ny"),
        vec![
            token(TokenType::Str, "a\nb", 1),
            token(TokenType::Iden, "x", 1),
            token(TokenType::Iden, "y", 2),
            token(TokenType::Eof, "", 2),
        ]
    );
}

#[test]
fn unknown_escape_is_a_lexical_failure() {
    let mut pos = 0usize;
    let mut line = 1u32;
    assert_eq!(lex("\"a\\q\"", &mut pos, &mut line), None);
    assert_eq!(pos, 3);
    assert_eq!(tokenize("\"a\\t\""), vec![]);
}

#[test]
fn unterminated_string_is_a_lexical_failure() {
    let mut pos = 0usize;
    let mut line = 1u32;
    assert_eq!(lex("\"abc", &mut pos, &mut line), None);
    assert_eq!(pos, 4);
    assert_eq!(tokenize("x \"abc"), vec![token(TokenType::Iden, "x", 1)]);
}

#[test]
fn backslash_at_end_of_buffer_is_a_lexical_failure() {
    let mut pos = 0usize;
    let mut line = 1u32;
    assert_eq!(lex("\"abc\\", &mut pos, &mut line), None);
    assert_eq!(pos, 5);
}

#[test]
fn unknown_character_is_a_lexical_failure() {
    let mut pos = 0usize;
    let mut line = 1u32;
    assert_eq!(lex("  @", &mut pos, &mut line), None);
    assert_eq!(pos, 2);
    assert_eq!(line, 1);
    assert_eq!(tokenize("a @ b"), vec![token(TokenType::Iden, "a", 1)]);
    assert_eq!(tokenize("é"), vec![]);
    assert_eq!(tokenize("a.b"), vec![token(TokenType::Iden, "a", 1)]);
}

#[test]
fn comments_run_to_the_end_of_the_line() {
    assert_eq!(
        tokenize("# first\nx # second ; y\n# third"),
        vec![token(TokenType::Iden, "x", 2), token(TokenType::Eof, "", 3)]
    );
}

#[test]
fn comment_without_line_feed_ends_the_buffer() {
    assert_eq!(tokenize("# only"), vec![token(TokenType::Eof, "", 1)]);
}

#[test]
fn each_line_feed_adds_one_line() {
    assert_eq!(
        tokenize("a\nb\n\n\nc"),
        vec![
            token(TokenType::Iden, "a", 1),
            token(TokenType::Iden, "b", 2),
            token(TokenType::Iden, "c", 5),
            token(TokenType::Eof, "", 5),
        ]
    );
}

#[test]
fn carriage_return_is_white_space_but_no_line() {
    assert_eq!(
        tokenize("a\r\nb\rc"),
        vec![
            token(TokenType::Iden, "a", 1),
            token(TokenType::Iden, "b", 2),
            token(TokenType::Iden, "c", 2),
            token(TokenType::Eof, "", 2),
        ]
    );
}

#[test]
fn lex_moves_the_cursor_past_each_token() {
    let src = "ab  <= 12";
    let mut pos = 0usize;
    let mut line = 1u32;
    assert_eq!(lex(src, &mut pos, &mut line), Some(token(TokenType::Iden, "ab", 1)));
    assert_eq!(pos, 2);
    assert_eq!(lex(src, &mut pos, &mut line), Some(token(TokenType::Leq, "<=", 1)));
    assert_eq!(pos, 6);
    assert_eq!(lex(src, &mut pos, &mut line), Some(token(TokenType::Num, "12", 1)));
    assert_eq!(pos, 9);
    assert_eq!(lex(src, &mut pos, &mut line), Some(token(TokenType::Eof, "", 1)));
    assert_eq!(pos, 9);
    assert_eq!(lex(src, &mut pos, &mut line), Some(token(TokenType::Eof, "", 1)));
    assert_eq!(pos, 9);
}

#[test]
fn lex_counts_characters_not_bytes() {
    let src = "\"é\" x";
    let mut pos = 0usize;
    let mut line = 1u32;
    assert_eq!(lex(src, &mut pos, &mut line), Some(token(TokenType::Str, "é", 1)));
    assert_eq!(pos, 3);
    assert_eq!(lex(src, &mut pos, &mut line), Some(token(TokenType::Iden, "x", 1)));
    assert_eq!(pos, 5);
}

#[test]
fn lex_starts_from_the_given_cursor() {
    let src = "a\nbcd e";
    let mut pos = 3usize;
    let mut line = 7u32;
    assert_eq!(lex(src, &mut pos, &mut line), Some(token(TokenType::Iden, "cd", 7)));
    assert_eq!(pos, 5);
    assert_eq!(line, 7);
}

#[test]
fn lex_past_the_end_gives_eof_and_stays() {
    let mut pos = 10usize;
    let mut line = 4u32;
    assert_eq!(lex("abc", &mut pos, &mut line), Some(token(TokenType::Eof, "", 4)));
    assert_eq!(pos, 10);
    assert_eq!(line, 4);
}

#[test]
fn lex_advances_the_line_counter_before_the_token() {
    let src = "\n\n  x";
    let mut pos = 0usize;
    let mut line = 1u32;
    assert_eq!(lex(src, &mut pos, &mut line), Some(token(TokenType::Iden, "x", 3)));
    assert_eq!(line, 3);
    assert_eq!(pos, 5);
}

#[test]
fn white_space_is_what_unicode_calls_white_space() {
    let mut c = 0u32;
    while c <= 0x10FFFF {
        if let Some(ch) = char::from_u32(c) {
            let src = ch.to_string();
            let mut pos = 0usize;
            let mut line = 1u32;
            let skipped = match lex(&src, &mut pos, &mut line) {
                Some(t) => t.ttype == TokenType::Eof,
                None => false,
            };
            assert_eq!(skipped, ch.is_whitespace() || ch == '#', "U+{:04X}", c);
        }
        c += 1;
    }
}

#[test]
fn word_characters_are_ascii_letters_digits_and_underscore() {
    let mut c = 0u32;
    while c <= 0x10FFFF {
        if let Some(ch) = char::from_u32(c) {
            let src = format!("a{}", ch);
            let mut pos = 0usize;
            let mut line = 1u32;
            let first = lex(&src, &mut pos, &mut line);
            let joined = pos == 2;
            assert_eq!(joined, ch.is_ascii_alphanumeric() || ch == '_', "U+{:04X}", c);
            assert!(first.is_some());
        }
        c += 1;
    }
}

#[test]
fn digits_are_ascii_digits() {
    let mut c = 0u32;
    while c <= 0x10FFFF {
        if let Some(ch) = char::from_u32(c) {
            let src = ch.to_string();
            let mut pos = 0usize;
            let mut line = 1u32;
            let is_number = match lex(&src, &mut pos, &mut line) {
                Some(t) => t.ttype == TokenType::Num,
                None => false,
            };
            assert_eq!(is_number, ch.is_ascii_digit(), "U+{:04X}", c);
        }
        c += 1;
    }
}

#[test]
fn token_stream_ends_in_exactly_one_eof() {
    let sources = [
        "",
        "x",
        "let a = 1;\nfn f(a, b) { return a + b; }\n",
        "if (a <= b) { break; } elif (c) { } else { x = \"s\"; }",
        "# nothing but a comment",
        "1 + 2 * 3;",
    ];
    for src in sources {
        let tokens = tokenize(src);
        assert!(!tokens.is_empty());
        assert_eq!(tokens[tokens.len() - 1].ttype, TokenType::Eof);
        let eofs = tokens.iter().filter(|t| t.ttype == TokenType::Eof).count();
        assert_eq!(eofs, 1);
    }
}

#[test]
fn token_stream_cut_short_holds_no_eof() {
    let sources = ["@", "a b $", "x = 1.2.3;", "\"open", "\"bad \\x escape\"", "a\n?\nb"];
    for src in sources {
        let tokens = tokenize(src);
        assert!(tokens.iter().all(|t| t.ttype != TokenType::Eof));
    }
}

#[test]
fn lexing_is_deterministic() {
    let src = "fn f(a) {\n  # note\n  return a * 2.5;\n}\nf(\"x\\n\");";
    assert_eq!(tokenize(src), tokenize(src));
    let copy = src.to_string();
    assert_eq!(tokenize(src), tokenize(&copy));
    let mut pos_a = 0usize;
    let mut line_a = 1u32;
    let mut pos_b = 0usize;
    let mut line_b = 1u32;
    loop {
        let a = lex(src, &mut pos_a, &mut line_a);
        let b = lex(&copy, &mut pos_b, &mut line_b);
        assert_eq!(a, b);
        assert_eq!(pos_a, pos_b);
        assert_eq!(line_a, line_b);
        match a {
            Some(t) if t.ttype != TokenType::Eof => {}
            _ => break,
        }
    }
}

#[test]
fn tokenize_agrees_with_repeated_lex() {
    let src = "let total = price * 3 + tax; # sum\nprint(total, \"done\");\n";
    let mut expected = Vec::new();
    let mut pos = 0usize;
    let mut line = 1u32;
    loop {
        match lex(src, &mut pos, &mut line) {
            Some(t) => {
                let done = t.ttype == TokenType::Eof;
                expected.push(t);
                if done {
                    break;
                }
            }
            None => break,
        }
    }
    assert_eq!(tokenize(src), expected);
    assert_eq!(expected.len(), 17);
}

#[test]
fn ordinary_buffers_fit_the_line_counter() {
    assert!(lines_fit(""));
    assert!(lines_fit("one line"));
    assert!(lines_fit("a\nb\n\n\nc\n"));
    assert!(lines_fit(&"\n".repeat(100_000)));
}

#[test]
fn line_counter_can_start_anywhere_below_its_limit() {
    let src = "a\nb";
    let mut pos = 0usize;
    let mut line = u32::MAX - 1;
    assert_eq!(lex(src, &mut pos, &mut line), Some(token(TokenType::Iden, "a", u32::MAX - 1)));
    assert_eq!(lex(src, &mut pos, &mut line), Some(token(TokenType::Iden, "b", u32::MAX)));
    assert_eq!(lex(src, &mut pos, &mut line), Some(token(TokenType::Eof, "", u32::MAX)));
    assert_eq!(line, u32::MAX);
}

#[test]
fn scan_without_failure_gives_all_tokens() {
    let (tokens, failure) = scan_buffer("let x = 1;\n");
    assert_eq!(failure, None);
    assert_eq!(tokens, tokenize("let x = 1;\n"));
    assert_eq!(tokens.len(), 6);
    assert_eq!(scan_buffer(""), (vec![token(TokenType::Eof, "", 1)], None));
}

#[test]
fn unknown_character_is_reported_with_its_line() {
    let (tokens, failure) = scan_buffer("a\n\n  @ b");
    assert_eq!(tokens, vec![token(TokenType::Iden, "a", 1)]);
    assert_eq!(failure, Some(LexicalFailure::UnknownCharacter('@', 3)));
    assert_eq!(scan_buffer(".5").1, Some(LexicalFailure::UnknownCharacter('.', 1)));
    assert_eq!(scan_buffer("# c\né").1, Some(LexicalFailure::UnknownCharacter('é', 2)));
}

#[test]
fn malformed_number_is_reported_with_its_line() {
    let (tokens, failure) = scan_buffer("x =\n1.2.3;");
    assert_eq!(tokens, vec![token(TokenType::Iden, "x", 1), token(TokenType::Equ, "=", 1)]);
    assert_eq!(failure, Some(LexicalFailure::MalformedNumber(2)));
    assert_eq!(scan_buffer("1..").1, Some(LexicalFailure::MalformedNumber(1)));
}

#[test]
fn unknown_escape_is_reported_with_its_character_and_line() {
    assert_eq!(scan_buffer("\n\"a\\qb\"").1, Some(LexicalFailure::UnknownEscape('q', 2)));
    assert_eq!(scan_buffer("\"\\t\"").1, Some(LexicalFailure::UnknownEscape('t', 1)));
}

#[test]
fn unterminated_string_is_reported_with_the_line_of_its_start() {
    assert_eq!(scan_buffer("x\n\"abc\ndef").1, Some(LexicalFailure::UnterminatedString(2)));
    assert_eq!(scan_buffer("\"abc\\").1, Some(LexicalFailure::UnterminatedString(1)));
    assert_eq!(scan_buffer("\"").1, Some(LexicalFailure::UnterminatedString(1)));
}

#[test]
fn scan_reports_only_the_first_failure() {
    let (tokens, failure) = scan_buffer("a @ 1.2.3 \"open");
    assert_eq!(tokens.len(), 1);
    assert_eq!(failure, Some(LexicalFailure::UnknownCharacter('@', 1)));
}

#[test]
fn checked_scan_agrees_with_scan() {
    for src in ["", "let x = 1;", "a @ b", "\"open", "1.2.3"] {
        assert_eq!(scan_checked(src), Some(scan_buffer(src)));
    }
}

#[test]
fn end_of_file_comes_only_where_nothing_but_blanks_and_comments_is_left() {
    for (src, pos, eof) in [
        ("", 0, true),
        ("  \n\t # c\n#d", 0, true),
        ("x # c", 1, true),
        ("x # c\ny", 1, false),
        ("# c\n;", 0, false),
        ("x", 0, false),
        ("x", 1, true),
        ("  @", 0, false),
    ] {
        let mut p = pos;
        let mut line = 1u32;
        let token = lex(src, &mut p, &mut line);
        assert_eq!(token.map(|t| t.ttype) == Some(TokenType::Eof), eof, "{:?}", src);
    }
}

#[test]
fn end_of_file_token_carries_the_count_of_line_feeds_left() {
    let src = "x \n# a\n\n  # b\n";
    let mut pos = 1usize;
    let mut line = 5u32;
    assert_eq!(lex(src, &mut pos, &mut line), Some(token(TokenType::Eof, "", 9)));
    assert_eq!(line, 9);
    assert_eq!(pos, src.chars().count());
}

#[test]
fn token_other_than_end_of_file_moves_the_cursor_forward() {
    let src = "ab + \"s\" 1.5 <= # c\n (";
    let n = src.chars().count();
    let mut pos = 0usize;
    let mut line = 1u32;
    loop {
        let before = pos;
        match lex(src, &mut pos, &mut line) {
            Some(t) if t.ttype != TokenType::Eof => assert!(before < pos && pos <= n),
            Some(_) => break,
            None => panic!("no failure expected"),
        }
    }
}
