//! The lexer: one call of [`lex`] scans one token from a source buffer and
//! moves a cursor (a character offset and a line number) past it;
//! [`tokenize`] calls it until the buffer is exhausted or scanning fails.

use vstd::prelude::*;

verus! {

/// The category of a token.
#[derive(Clone, Copy, Debug, PartialEq, Eq, Structural)]
pub enum TokenType {
    Num,
    Add,
    Sub,
    Div,
    Mul,
    Dot,
    True,
    Pub,
    Opt,
    Cpt,
    Ocl,
    Ccl,
    Scln,
    Equ,
    False,
    Eof,
    Eqv,
    Gre,
    Les,
    Geq,
    Leq,
    Break,
    Str,
    Mod,
    Loop,
    If,
    Elif,
    Else,
    Func,
    Slash,
    Return,
    Iden,
    Qt,
    And,
    Or,
    Let,
    NewLine,
    Com,
    Import,
}

/// A classified lexeme with the line on which it started.
#[derive(Debug, PartialEq, Eq)]
pub struct Token {
    pub ttype: TokenType,
    pub value: String,
    pub line_num: u32,
}

/// The mathematical value of a [`Token`]: its text is a sequence of characters.
pub struct TokenView {
    pub ttype: TokenType,
    pub value: Seq<char>,
    pub line_num: u32,
}

impl View for Token {
    type V = TokenView;

    open spec fn view(&self) -> TokenView {
        TokenView { ttype: self.ttype, value: self.value@, line_num: self.line_num }
    }
}

/// The views of a sequence of tokens, in order.
pub open spec fn token_views(tokens: Seq<Token>) -> Seq<TokenView> {
    tokens.map_values(|t: Token| t@)
}

/// The view of what one scan returns: `None` is a lexical failure.
pub open spec fn scanned(token: Option<Token>) -> Option<TokenView> {
    match token {
        Some(t) => Some(t@),
        None => None,
    }
}

// ---------------------------------------------------------------------------
// Character classes
// ---------------------------------------------------------------------------

/// An ASCII decimal digit.
pub open spec fn is_digit(c: char) -> bool {
    '0' <= c <= '9'
}

/// An ASCII letter.
pub open spec fn is_letter(c: char) -> bool {
    ('a' <= c <= 'z') || ('A' <= c <= 'Z')
}

/// A character that may start an identifier or keyword.
pub open spec fn is_word_start(c: char) -> bool {
    is_letter(c) || c == '_'
}

/// A character that may continue an identifier or keyword.
pub open spec fn is_word_part(c: char) -> bool {
    is_letter(c) || is_digit(c) || c == '_'
}

/// A character with the Unicode property `White_Space`.
pub open spec fn is_blank(c: char) -> bool {
    let u = c as u32;
    ||| 0x09 <= u <= 0x0D
    ||| u == 0x20
    ||| u == 0x85
    ||| u == 0xA0
    ||| u == 0x1680
    ||| 0x2000 <= u <= 0x200A
    ||| u == 0x2028
    ||| u == 0x2029
    ||| u == 0x202F
    ||| u == 0x205F
    ||| u == 0x3000
}

fn digit(c: char) -> (b: bool)
    ensures
        b == is_digit(c),
{
    '0' <= c && c <= '9'
}

fn word_start(c: char) -> (b: bool)
    ensures
        b == is_word_start(c),
{
    ('a' <= c && c <= 'z') || ('A' <= c && c <= 'Z') || c == '_'
}

fn word_part(c: char) -> (b: bool)
    ensures
        b == is_word_part(c),
{
    word_start(c) || digit(c)
}

fn blank(c: char) -> (b: bool)
    ensures
        b == is_blank(c),
{
    let u: u32 = c as u32;
    (0x09 <= u && u <= 0x0D) || u == 0x20 || u == 0x85 || u == 0xA0 || u == 0x1680 || (0x2000 <= u
        && u <= 0x200A) || u == 0x2028 || u == 0x2029 || u == 0x202F || u == 0x205F || u == 0x3000
}

// ---------------------------------------------------------------------------
// What one scan yields
// ---------------------------------------------------------------------------

/// The outcome of one scan: the token (`None` on a lexical failure) and the
/// cursor after it.
pub struct Scan {
    pub token: Option<TokenView>,
    pub pos: int,
    pub line: int,
}

/// The number of line feeds at offset `from` or later.
pub open spec fn line_feeds(buf: Seq<char>, from: int) -> nat
    decreases buf.len() - from,
{
    if 0 <= from < buf.len() {
        line_feeds(buf, from + 1) + if buf[from] == '\n' {
            1nat
        } else {
            0nat
        }
    } else {
        0
    }
}

/// The first offset at or after `from` that holds a line feed, or the end of
/// the buffer.
pub open spec fn line_end(buf: Seq<char>, from: int) -> int
    decreases buf.len() - from,
{
    if 0 <= from < buf.len() && buf[from] != '\n' {
        line_end(buf, from + 1)
    } else {
        from
    }
}

/// The first offset at or after `from` that holds no digit, or the end of the
/// buffer.
pub open spec fn digits_end(buf: Seq<char>, from: int) -> int
    decreases buf.len() - from,
{
    if 0 <= from < buf.len() && is_digit(buf[from]) {
        digits_end(buf, from + 1)
    } else {
        from
    }
}

/// The first offset at or after `from` that cannot continue a word, or the end
/// of the buffer.
pub open spec fn word_end(buf: Seq<char>, from: int) -> int
    decreases buf.len() - from,
{
    if 0 <= from < buf.len() && is_word_part(buf[from]) {
        word_end(buf, from + 1)
    } else {
        from
    }
}

/// A run never ends before it starts, nor after the end of the buffer.
pub proof fn lemma_run_bounds(buf: Seq<char>, from: int)
    requires
        0 <= from <= buf.len(),
    ensures
        from <= line_end(buf, from) <= buf.len(),
        from <= digits_end(buf, from) <= buf.len(),
        from <= word_end(buf, from) <= buf.len(),
    decreases buf.len() - from,
{
    if from < buf.len() {
        lemma_run_bounds(buf, from + 1);
    }
}

/// The cursor after comments and white space: a comment runs from `#` to the
/// end of its line, and each line feed that is skipped adds one to the line
/// number.
pub open spec fn skip_blank(buf: Seq<char>, pos: int, line: int) -> (int, int)
    decreases buf.len() - pos,
    via skip_blank_decreases
{
    if 0 <= pos < buf.len() {
        if buf[pos] == '#' {
            skip_blank(buf, line_end(buf, pos), line)
        } else if is_blank(buf[pos]) {
            skip_blank(
                buf,
                pos + 1,
                if buf[pos] == '\n' {
                    line + 1
                } else {
                    line
                },
            )
        } else {
            (pos, line)
        }
    } else {
        (pos, line)
    }
}

#[via_fn]
proof fn skip_blank_decreases(buf: Seq<char>, pos: int, line: int) {
    if 0 <= pos < buf.len() && buf[pos] == '#' {
        lemma_run_bounds(buf, pos + 1);
    }
}

/// The token type of a one-character symbol, if `c` is one.
pub open spec fn symbol_type(c: char) -> Option<TokenType> {
    if c == '+' {
        Some(TokenType::Add)
    } else if c == '-' {
        Some(TokenType::Sub)
    } else if c == '*' {
        Some(TokenType::Mul)
    } else if c == '/' {
        Some(TokenType::Div)
    } else if c == '%' {
        Some(TokenType::Mod)
    } else if c == '(' {
        Some(TokenType::Opt)
    } else if c == ')' {
        Some(TokenType::Cpt)
    } else if c == '{' {
        Some(TokenType::Ocl)
    } else if c == '}' {
        Some(TokenType::Ccl)
    } else if c == ',' {
        Some(TokenType::Com)
    } else if c == ';' {
        Some(TokenType::Scln)
    } else {
        None
    }
}

/// The token type of a word: a keyword's own type, `Iden` for any other word.
pub open spec fn word_type(text: Seq<char>) -> TokenType {
    if text == "loop"@ {
        TokenType::Loop
    } else if text == "if"@ {
        TokenType::If
    } else if text == "elif"@ {
        TokenType::Elif
    } else if text == "else"@ {
        TokenType::Else
    } else if text == "true"@ {
        TokenType::True
    } else if text == "false"@ {
        TokenType::False
    } else if text == "break"@ {
        TokenType::Break
    } else if text == "return"@ {
        TokenType::Return
    } else if text == "import"@ {
        TokenType::Import
    } else if text == "pub"@ {
        TokenType::Pub
    } else if text == "fn"@ {
        TokenType::Func
    } else if text == "and"@ {
        TokenType::And
    } else if text == "or"@ {
        TokenType::Or
    } else if text == "let"@ {
        TokenType::Let
    } else {
        TokenType::Iden
    }
}

/// The body of a string literal from offset `from` on, with `text` the
/// characters gathered so far: the unescaped text and the offset after the
/// closing quote, or `None` and the offset at which scanning gave up. Only
/// `\"`, `\n` and `\\` are escapes; the literal must close before the buffer
/// ends.
pub open spec fn string_body(buf: Seq<char>, from: int, text: Seq<char>) -> (
    Option<Seq<char>>,
    int,
)
    decreases buf.len() - from,
{
    if !(0 <= from < buf.len()) {
        (None, from)
    } else if buf[from] == '"' {
        (Some(text), from + 1)
    } else if buf[from] == '\\' {
        if from + 1 >= buf.len() {
            (None, from + 1)
        } else if buf[from + 1] == '"' {
            string_body(buf, from + 2, text.push('"'))
        } else if buf[from + 1] == 'n' {
            string_body(buf, from + 2, text.push('\n'))
        } else if buf[from + 1] == '\\' {
            string_body(buf, from + 2, text.push('\\'))
        } else {
            (None, from + 1)
        }
    } else {
        string_body(buf, from + 1, text.push(buf[from]))
    }
}

/// A token of type `ttype` whose text is the buffer from `from` up to `to`.
pub open spec fn lexeme(ttype: TokenType, buf: Seq<char>, from: int, to: int, line: int) -> Scan {
    Scan {
        token: Some(TokenView { ttype, value: buf.subrange(from, to), line_num: line as u32 }),
        pos: to,
        line,
    }
}

/// The token that starts at offset `p`, which holds neither white space nor
/// the start of a comment.
pub open spec fn scan_token(buf: Seq<char>, p: int, line: int) -> Scan {
    let c = buf[p];
    let followed_by_equals = p + 1 < buf.len() && buf[p + 1] == '=';
    if let Some(ttype) = symbol_type(c) {
        lexeme(ttype, buf, p, p + 1, line)
    } else if c == '"' {
        let (text, end) = string_body(buf, p + 1, Seq::empty());
        match text {
            Some(text) => Scan {
                token: Some(TokenView { ttype: TokenType::Str, value: text, line_num: line as u32 }),
                pos: end,
                line,
            },
            None => Scan { token: None, pos: end, line },
        }
    } else if c == '=' {
        if followed_by_equals {
            lexeme(TokenType::Eqv, buf, p, p + 2, line)
        } else {
            lexeme(TokenType::Equ, buf, p, p + 1, line)
        }
    } else if c == '<' {
        if followed_by_equals {
            lexeme(TokenType::Leq, buf, p, p + 2, line)
        } else {
            lexeme(TokenType::Les, buf, p, p + 1, line)
        }
    } else if c == '>' {
        if followed_by_equals {
            lexeme(TokenType::Geq, buf, p, p + 2, line)
        } else {
            lexeme(TokenType::Gre, buf, p, p + 1, line)
        }
    } else if is_digit(c) {
        let whole = digits_end(buf, p);
        if whole < buf.len() && buf[whole] == '.' {
            let fraction = digits_end(buf, whole + 1);
            if fraction < buf.len() && buf[fraction] == '.' {
                Scan { token: None, pos: fraction, line }
            } else {
                lexeme(TokenType::Num, buf, p, fraction, line)
            }
        } else {
            lexeme(TokenType::Num, buf, p, whole, line)
        }
    } else if is_word_start(c) {
        let end = word_end(buf, p + 1);
        lexeme(word_type(buf.subrange(p, end)), buf, p, end, line)
    } else {
        Scan { token: None, pos: p, line }
    }
}

/// One scan from the cursor `(pos, line)`: comments and white space are
/// skipped, then comes the token that starts there, or the end-of-file token
/// where the buffer is exhausted.
pub open spec fn spec_lex(buf: Seq<char>, pos: int, line: int) -> Scan {
    let (p, l) = skip_blank(buf, pos, line);
    if 0 <= p < buf.len() {
        scan_token(buf, p, l)
    } else {
        Scan {
            token: Some(
                TokenView { ttype: TokenType::Eof, value: Seq::empty(), line_num: l as u32 },
            ),
            pos: p,
            line: l,
        }
    }
}

/// Why a scan failed, with the line on which the failing token started.
#[derive(Clone, Copy, Debug, PartialEq, Eq, Structural)]
pub enum LexicalFailure {
    /// A character that starts no token.
    UnknownCharacter(char, u32),
    /// A second `.` in a number.
    MalformedNumber(u32),
    /// A backslash in a string literal before a character other than `"`,
    /// `n` and `\\`.
    UnknownEscape(char, u32),
    /// A string literal that the buffer ends before closing.
    UnterminatedString(u32),
}

/// The failure of one scan from the cursor `(pos, line)`, where that scan
/// fails.
pub open spec fn failure_at(buf: Seq<char>, pos: int, line: int) -> LexicalFailure {
    let (p, l) = skip_blank(buf, pos, line);
    let c = buf[p];
    if c == '"' {
        let end = string_body(buf, p + 1, Seq::empty()).1;
        if end < buf.len() {
            LexicalFailure::UnknownEscape(buf[end], l as u32)
        } else {
            LexicalFailure::UnterminatedString(l as u32)
        }
    } else if is_digit(c) {
        LexicalFailure::MalformedNumber(l as u32)
    } else {
        LexicalFailure::UnknownCharacter(c, l as u32)
    }
}

/// What one scan returned: the token, or `None` where it failed.
pub open spec fn scanned_or_failed(r: Result<Token, LexicalFailure>) -> Option<TokenView> {
    match r {
        Ok(t) => Some(t@),
        Err(_) => None,
    }
}

// ---------------------------------------------------------------------------
// Scanning
// ---------------------------------------------------------------------------

/// `String::push` of the standard library: the string afterwards is the string
/// before with `ch` appended.
pub assume_specification[ String::push ](s: &mut String, ch: char)
    ensures
        final(s)@ == old(s)@.push(ch),
;

/// The characters of `s`, in order.
pub(crate) fn to_chars(s: &str) -> (chars: Vec<char>)
    ensures
        chars@ == s@,
{
    let mut chars: Vec<char> = Vec::new();
    for c in it: s.chars()
        invariant
            chars@ == it.seq().take(it.index() as int),
    {
        chars.push(c);
    }
    chars
}

/// The characters from `from` up to `to` as a string.
fn text_of(chars: &Vec<char>, from: usize, to: usize) -> (text: String)
    requires
        from <= to <= chars.len(),
    ensures
        text@ == chars@.subrange(from as int, to as int),
{
    let mut text = String::new();
    let mut i: usize = from;
    while i < to
        invariant
            from <= i <= to <= chars.len(),
            text@ == chars@.subrange(from as int, i as int),
        decreases to - i,
    {
        text.push(chars[i]);
        assert(chars@.subrange(from as int, i as int).push(chars@[i as int])
            =~= chars@.subrange(from as int, i + 1));
        i += 1;
    }
    text
}

/// Whether the characters from `from` up to `to` spell `word`.
fn spells(chars: &Vec<char>, from: usize, to: usize, word: &str) -> (same: bool)
    requires
        from <= to <= chars.len(),
    ensures
        same == (chars@.subrange(from as int, to as int) == word@),
{
    let n = word.unicode_len();
    if to - from != n {
        return false;
    }
    let mut i: usize = 0;
    while i < n
        invariant
            from <= to <= chars.len(),
            to - from == n == word@.len(),
            i <= n,
            forall|j: int| 0 <= j < i ==> chars@[from + j] == word@[j],
        decreases n - i,
    {
        if chars[from + i] != word.get_char(i) {
            assert(chars@.subrange(from as int, to as int)[i as int] != word@[i as int]);
            return false;
        }
        i += 1;
    }
    assert(chars@.subrange(from as int, to as int) =~= word@);
    true
}

fn symbol(c: char) -> (t: Option<TokenType>)
    ensures
        t == symbol_type(c),
{
    if c == '+' {
        Some(TokenType::Add)
    } else if c == '-' {
        Some(TokenType::Sub)
    } else if c == '*' {
        Some(TokenType::Mul)
    } else if c == '/' {
        Some(TokenType::Div)
    } else if c == '%' {
        Some(TokenType::Mod)
    } else if c == '(' {
        Some(TokenType::Opt)
    } else if c == ')' {
        Some(TokenType::Cpt)
    } else if c == '{' {
        Some(TokenType::Ocl)
    } else if c == '}' {
        Some(TokenType::Ccl)
    } else if c == ',' {
        Some(TokenType::Com)
    } else if c == ';' {
        Some(TokenType::Scln)
    } else {
        None
    }
}

fn keyword(chars: &Vec<char>, from: usize, to: usize) -> (t: TokenType)
    requires
        from <= to <= chars.len(),
    ensures
        t == word_type(chars@.subrange(from as int, to as int)),
{
    if spells(chars, from, to, "loop") {
        TokenType::Loop
    } else if spells(chars, from, to, "if") {
        TokenType::If
    } else if spells(chars, from, to, "elif") {
        TokenType::Elif
    } else if spells(chars, from, to, "else") {
        TokenType::Else
    } else if spells(chars, from, to, "true") {
        TokenType::True
    } else if spells(chars, from, to, "false") {
        TokenType::False
    } else if spells(chars, from, to, "break") {
        TokenType::Break
    } else if spells(chars, from, to, "return") {
        TokenType::Return
    } else if spells(chars, from, to, "import") {
        TokenType::Import
    } else if spells(chars, from, to, "pub") {
        TokenType::Pub
    } else if spells(chars, from, to, "fn") {
        TokenType::Func
    } else if spells(chars, from, to, "and") {
        TokenType::And
    } else if spells(chars, from, to, "or") {
        TokenType::Or
    } else if spells(chars, from, to, "let") {
        TokenType::Let
    } else {
        TokenType::Iden
    }
}

/// The first offset at or after `from` that holds no digit.
fn skip_digits(chars: &Vec<char>, from: usize) -> (end: usize)
    requires
        from <= chars.len(),
    ensures
        end == digits_end(chars@, from as int),
        from <= end <= chars.len(),
{
    let mut end: usize = from;
    while end < chars.len() && digit(chars[end])
        invariant
            from <= end <= chars.len(),
            digits_end(chars@, end as int) == digits_end(chars@, from as int),
        decreases chars.len() - end,
    {
        end += 1;
    }
    end
}

/// The first offset at or after `from` that cannot continue a word.
fn skip_word(chars: &Vec<char>, from: usize) -> (end: usize)
    requires
        from <= chars.len(),
    ensures
        end == word_end(chars@, from as int),
        from <= end <= chars.len(),
{
    let mut end: usize = from;
    while end < chars.len() && word_part(chars[end])
        invariant
            from <= end <= chars.len(),
            word_end(chars@, end as int) == word_end(chars@, from as int),
        decreases chars.len() - end,
    {
        end += 1;
    }
    end
}

/// Scans the body of a string literal that opened just before `from`.
fn scan_string(chars: &Vec<char>, from: usize) -> (r: (Option<String>, usize))
    requires
        from <= chars.len(),
    ensures
        (match r.0 {
            Some(text) => Some(text@),
            None => None,
        }) == string_body(chars@, from as int, Seq::empty()).0,
        r.1 == string_body(chars@, from as int, Seq::empty()).1,
        from <= r.1 <= chars.len(),
{
    let n = chars.len();
    let mut text = String::new();
    let mut q: usize = from;
    while q < n
        invariant
            n == chars.len(),
            from <= q <= n,
            string_body(chars@, q as int, text@) == string_body(
                chars@,
                from as int,
                Seq::empty(),
            ),
        decreases n - q,
    {
        let c = chars[q];
        if c == '"' {
            return (Some(text), q + 1);
        } else if c == '\\' {
            if q + 1 >= n {
                return (None, q + 1);
            }
            let e = chars[q + 1];
            if e == '"' {
                text.push('"');
            } else if e == 'n' {
                text.push('\n');
            } else if e == '\\' {
                text.push('\\');
            } else {
                return (None, q + 1);
            }
            q += 2;
        } else {
            text.push(c);
            q += 1;
        }
    }
    (None, q)
}

/// One scan over the characters of a buffer; see [`lex`]. Where the scan
/// fails, the result tells why.
fn lex_chars(chars: &Vec<char>, pos: &mut usize, line_number: &mut u32) -> (r: Result<
    Token,
    LexicalFailure,
>)
    requires
        *old(line_number) + line_feeds(chars@, *old(pos) as int) <= u32::MAX,
    ensures
        scanned_or_failed(r) == spec_lex(
            chars@,
            *old(pos) as int,
            *old(line_number) as int,
        ).token,
        r matches Err(failure) ==> failure == failure_at(
            chars@,
            *old(pos) as int,
            *old(line_number) as int,
        ),
        *final(pos) == spec_lex(chars@, *old(pos) as int, *old(line_number) as int).pos,
        *final(line_number) == spec_lex(chars@, *old(pos) as int, *old(line_number) as int).line,
        *final(line_number) + line_feeds(chars@, *final(pos) as int) <= *old(line_number)
            + line_feeds(chars@, *old(pos) as int),
{
    let n = chars.len();
    let mut p: usize = *pos;
    let mut line: u32 = *line_number;
    while p < n && (chars[p] == '#' || blank(chars[p]))
        invariant
            n == chars.len(),
            skip_blank(chars@, p as int, line as int) == skip_blank(
                chars@,
                *old(pos) as int,
                *old(line_number) as int,
            ),
            line + line_feeds(chars@, p as int) <= *old(line_number) + line_feeds(
                chars@,
                *old(pos) as int,
            ),
            *old(line_number) + line_feeds(chars@, *old(pos) as int) <= u32::MAX,
        decreases n - p,
    {
        if chars[p] == '#' {
            let ghost start = p;
            while p < n && chars[p] != '\n'
                invariant
                    n == chars.len(),
                    start <= p <= n,
                    line_end(chars@, p as int) == line_end(chars@, start as int),
                    line_feeds(chars@, p as int) == line_feeds(chars@, start as int),
                decreases n - p,
            {
                p += 1;
            }
        } else {
            if chars[p] == '\n' {
                line += 1;
            }
            p += 1;
        }
    }
    *pos = p;
    *line_number = line;
    if p >= n {
        return Ok(Token { ttype: TokenType::Eof, value: String::new(), line_num: line });
    }
    let c = chars[p];
    proof {
        lemma_line_feeds_monotone(chars@, p as int, p + 1);
    }
    if let Some(ttype) = symbol(c) {
        *pos = p + 1;
        return Ok(Token { ttype, value: text_of(chars, p, p + 1), line_num: line });
    }
    if c == '"' {
        let (text, end) = scan_string(chars, p + 1);
        proof {
            lemma_line_feeds_monotone(chars@, p as int, end as int);
        }
        *pos = end;
        return match text {
            Some(text) => Ok(Token { ttype: TokenType::Str, value: text, line_num: line }),
            None => if end < n {
                Err(LexicalFailure::UnknownEscape(chars[end], line))
            } else {
                Err(LexicalFailure::UnterminatedString(line))
            },
        };
    }
    if c == '=' || c == '<' || c == '>' {
        let single = if c == '=' {
            TokenType::Equ
        } else if c == '<' {
            TokenType::Les
        } else {
            TokenType::Gre
        };
        let double = if c == '=' {
            TokenType::Eqv
        } else if c == '<' {
            TokenType::Leq
        } else {
            TokenType::Geq
        };
        if p + 1 < n && chars[p + 1] == '=' {
            proof {
                lemma_line_feeds_monotone(chars@, p as int, p + 2);
            }
            *pos = p + 2;
            return Ok(Token { ttype: double, value: text_of(chars, p, p + 2), line_num: line });
        }
        *pos = p + 1;
        return Ok(Token { ttype: single, value: text_of(chars, p, p + 1), line_num: line });
    }
    if digit(c) {
        let whole = skip_digits(chars, p);
        let mut end = whole;
        if whole < n && chars[whole] == '.' {
            end = skip_digits(chars, whole + 1);
            if end < n && chars[end] == '.' {
                proof {
                    lemma_line_feeds_monotone(chars@, p as int, end as int);
                }
                *pos = end;
                return Err(LexicalFailure::MalformedNumber(line));
            }
        }
        proof {
            lemma_line_feeds_monotone(chars@, p as int, end as int);
        }
        *pos = end;
        return Ok(Token { ttype: TokenType::Num, value: text_of(chars, p, end), line_num: line });
    }
    if word_start(c) {
        let end = skip_word(chars, p + 1);
        proof {
            lemma_line_feeds_monotone(chars@, p as int, end as int);
        }
        *pos = end;
        return Ok(
            Token { ttype: keyword(chars, p, end), value: text_of(chars, p, end), line_num: line },
        );
    }
    Err(LexicalFailure::UnknownCharacter(c, line))
}

/// Fewer line feeds lie after a later offset.
pub proof fn lemma_line_feeds_monotone(buf: Seq<char>, from: int, to: int)
    requires
        0 <= from <= to,
    ensures
        line_feeds(buf, to) <= line_feeds(buf, from),
    decreases to - from,
{
    if from < to {
        lemma_line_feeds_monotone(buf, from + 1, to);
    }
}

/// Scans the next token of `file_buffer` from the cursor: `pos` is an offset in
/// characters, `line_number` the line on which it stands. Comments and white
/// space are skipped, the cursor moves past the token, and the token carries
/// the line on which it starts. The end-of-file token is returned where the
/// buffer is exhausted. `None` is a lexical failure: a character that starts
/// no token, a second `.` in a number, an escape other than `\"`, `\n`, `\\`,
/// or a string literal that the buffer ends before closing.
///
/// The result is a function of the buffer and the cursor alone: scanning the
/// same buffer from the same cursor always gives the same token. The
/// end-of-file token comes exactly where nothing but white space and comments
/// is left; any other token takes at least one character.
///
/// The line counter must have room for the line feeds that lie ahead; it never
/// uses more of that room than it skips line feeds. A buffer with
/// [`lines_fit`] can be scanned to its end from line 1.
pub fn lex(file_buffer: &str, pos: &mut usize, line_number: &mut u32) -> (token: Option<Token>)
    requires
        *old(line_number) + line_feeds(file_buffer@, *old(pos) as int) <= u32::MAX,
    ensures
        scanned(token) == spec_lex(file_buffer@, *old(pos) as int, *old(line_number) as int).token,
        *final(pos) == spec_lex(file_buffer@, *old(pos) as int, *old(line_number) as int).pos,
        *final(line_number) == spec_lex(
            file_buffer@,
            *old(pos) as int,
            *old(line_number) as int,
        ).line,
        *final(line_number) + line_feeds(file_buffer@, *final(pos) as int) <= *old(line_number)
            + line_feeds(file_buffer@, *old(pos) as int),
        all_blank(file_buffer@, *old(pos) as int) <==> (match token {
            Some(t) => t.ttype == TokenType::Eof,
            None => false,
        }),
        match token {
            Some(t) => t.ttype != TokenType::Eof ==> *old(pos) < *final(pos) <= file_buffer@.len(),
            None => true,
        },
{
    let chars = to_chars(file_buffer);
    proof {
        lemma_eof_at_end_only(chars@, *pos as int, *line_number as int);
        lemma_lex_advances(chars@, *pos as int, *line_number as int);
    }
    match lex_chars(&chars, pos, line_number) {
        Ok(token) => Some(token),
        Err(_) => None,
    }
}

/// Whether the lines of `file_buffer` can be counted in the line counter: the
/// buffer can then be scanned from its start, at line 1.
pub fn lines_fit(file_buffer: &str) -> (fit: bool)
    ensures
        fit == (1 + line_feeds(file_buffer@, 0) <= u32::MAX),
{
    let chars = to_chars(file_buffer);
    let mut feeds: usize = 0;
    let mut i: usize = chars.len();
    while i > 0
        invariant
            i <= chars.len(),
            feeds == line_feeds(chars@, i as int),
            feeds <= chars.len() - i,
        decreases i,
    {
        i -= 1;
        if chars[i] == '\n' {
            feeds += 1;
        }
    }
    feeds < 0xFFFF_FFFF
}

// ---------------------------------------------------------------------------
// The token stream
// ---------------------------------------------------------------------------

/// The tokens that repeated scans yield from the cursor `(pos, line)`: scanning
/// stops after the end-of-file token, or at the first lexical failure, where
/// the sequence ends without an end-of-file token.
pub open spec fn token_stream(buf: Seq<char>, pos: int, line: int) -> Seq<TokenView>
    decreases buf.len() - pos,
    when 0 <= pos
    via token_stream_decreases
{
    match spec_lex(buf, pos, line).token {
        None => Seq::empty(),
        Some(t) => if t.ttype == TokenType::Eof {
            seq![t]
        } else {
            seq![t] + token_stream(buf, spec_lex(buf, pos, line).pos, spec_lex(buf, pos, line).line)
        },
    }
}

#[via_fn]
proof fn token_stream_decreases(buf: Seq<char>, pos: int, line: int) {
    lemma_lex_advances(buf, pos, line);
}

/// Whether scanning from the cursor `(pos, line)` meets a lexical failure
/// before the buffer is exhausted.
pub open spec fn has_lexical_error(buf: Seq<char>, pos: int, line: int) -> bool
    decreases buf.len() - pos,
    when 0 <= pos
    via has_lexical_error_decreases
{
    match spec_lex(buf, pos, line).token {
        None => true,
        Some(t) => if t.ttype == TokenType::Eof {
            false
        } else {
            has_lexical_error(buf, spec_lex(buf, pos, line).pos, spec_lex(buf, pos, line).line)
        },
    }
}

#[via_fn]
proof fn has_lexical_error_decreases(buf: Seq<char>, pos: int, line: int) {
    lemma_lex_advances(buf, pos, line);
}

/// The sequence is not empty, its last token is the end-of-file token, and no
/// token before it is.
pub open spec fn ends_in_one_eof(tokens: Seq<TokenView>) -> bool {
    &&& tokens.len() > 0
    &&& tokens.last().ttype == TokenType::Eof
    &&& forall|i: int| 0 <= i < tokens.len() - 1 ==> (#[trigger] tokens[i]).ttype != TokenType::Eof
}

/// No token of the sequence is the end-of-file token.
pub open spec fn has_no_eof(tokens: Seq<TokenView>) -> bool {
    forall|i: int| 0 <= i < tokens.len() ==> (#[trigger] tokens[i]).ttype != TokenType::Eof
}

/// The cursor never moves backwards while white space and comments are skipped,
/// and stays inside the buffer.
pub proof fn lemma_skip_blank_bounds(buf: Seq<char>, pos: int, line: int)
    requires
        0 <= pos,
    ensures
        pos <= skip_blank(buf, pos, line).0,
        pos <= buf.len() ==> skip_blank(buf, pos, line).0 <= buf.len(),
        line <= skip_blank(buf, pos, line).1,
    decreases buf.len() - pos,
{
    if pos < buf.len() {
        if buf[pos] == '#' {
            lemma_run_bounds(buf, pos + 1);
            lemma_skip_blank_bounds(buf, line_end(buf, pos), line);
        } else if is_blank(buf[pos]) {
            lemma_skip_blank_bounds(
                buf,
                pos + 1,
                if buf[pos] == '\n' {
                    line + 1
                } else {
                    line
                },
            );
        }
    }
}

/// A string literal's body ends inside the buffer, after where it starts.
pub proof fn lemma_string_body_bounds(buf: Seq<char>, from: int, text: Seq<char>)
    requires
        0 <= from <= buf.len(),
    ensures
        from <= string_body(buf, from, text).1 <= buf.len(),
        string_body(buf, from, text).0 is Some ==> from < string_body(buf, from, text).1,
    decreases buf.len() - from,
{
    if from < buf.len() && buf[from] != '"' {
        if buf[from] == '\\' {
            if from + 1 < buf.len() {
                let e = buf[from + 1];
                if e == '"' {
                    lemma_string_body_bounds(buf, from + 2, text.push('"'));
                } else if e == 'n' {
                    lemma_string_body_bounds(buf, from + 2, text.push('\n'));
                } else if e == '\\' {
                    lemma_string_body_bounds(buf, from + 2, text.push('\\'));
                }
            }
        } else {
            lemma_string_body_bounds(buf, from + 1, text.push(buf[from]));
        }
    }
}

/// One scan never moves the cursor backwards. A token other than the
/// end-of-file token takes at least one character, and only the end of the
/// buffer yields the end-of-file token.
pub proof fn lemma_lex_advances(buf: Seq<char>, pos: int, line: int)
    requires
        0 <= pos,
    ensures
        pos <= spec_lex(buf, pos, line).pos,
        line <= spec_lex(buf, pos, line).line,
        pos <= buf.len() ==> spec_lex(buf, pos, line).pos <= buf.len(),
        match spec_lex(buf, pos, line).token {
            Some(t) => if t.ttype == TokenType::Eof {
                spec_lex(buf, pos, line).pos >= buf.len()
            } else {
                pos < spec_lex(buf, pos, line).pos <= buf.len()
            },
            None => true,
        },
{
    lemma_skip_blank_bounds(buf, pos, line);
    let (p, l) = skip_blank(buf, pos, line);
    if p < buf.len() {
        lemma_run_bounds(buf, p + 1);
        lemma_string_body_bounds(buf, p + 1, Seq::empty());
        let whole = digits_end(buf, p);
        if is_digit(buf[p]) && whole < buf.len() {
            lemma_run_bounds(buf, whole + 1);
        }
    }
}

/// Whether nothing but white space and comments stands at offset `from` or
/// later.
pub open spec fn all_blank(buf: Seq<char>, from: int) -> bool
    decreases buf.len() - from,
    via all_blank_decreases
{
    if 0 <= from < buf.len() {
        if buf[from] == '#' {
            all_blank(buf, line_end(buf, from))
        } else {
            is_blank(buf[from]) && all_blank(buf, from + 1)
        }
    } else {
        true
    }
}

#[via_fn]
proof fn all_blank_decreases(buf: Seq<char>, from: int) {
    if 0 <= from < buf.len() && buf[from] == '#' {
        lemma_run_bounds(buf, from + 1);
    }
}

/// No line feed lies inside a comment before the end of its line.
pub proof fn lemma_line_feeds_to_line_end(buf: Seq<char>, from: int)
    requires
        0 <= from,
    ensures
        line_feeds(buf, line_end(buf, from)) == line_feeds(buf, from),
    decreases buf.len() - from,
{
    if from < buf.len() && buf[from] != '\n' {
        lemma_line_feeds_to_line_end(buf, from + 1);
    }
}

/// Skipping white space and comments reaches the end of the buffer exactly
/// where nothing else is left, and has then counted every line feed that
/// was left.
pub proof fn lemma_skip_to_end(buf: Seq<char>, pos: int, line: int)
    requires
        0 <= pos,
    ensures
        all_blank(buf, pos) <==> skip_blank(buf, pos, line).0 >= buf.len(),
        all_blank(buf, pos) ==> skip_blank(buf, pos, line).1 == line + line_feeds(buf, pos),
    decreases buf.len() - pos,
{
    if pos < buf.len() {
        if buf[pos] == '#' {
            lemma_run_bounds(buf, pos + 1);
            lemma_line_feeds_to_line_end(buf, pos);
            lemma_skip_to_end(buf, line_end(buf, pos), line);
        } else if is_blank(buf[pos]) {
            lemma_skip_to_end(
                buf,
                pos + 1,
                if buf[pos] == '\n' {
                    line + 1
                } else {
                    line
                },
            );
        }
    }
}

/// A scan gives the end-of-file token exactly where nothing but white space
/// and comments is left in the buffer. The token then has no text, and the
/// line after the scan, which the token carries, is the line before it plus
/// the number of line feeds that were left.
pub proof fn lemma_eof_at_end_only(buf: Seq<char>, pos: int, line: int)
    requires
        0 <= pos,
    ensures
        all_blank(buf, pos) <==> (match spec_lex(buf, pos, line).token {
            Some(t) => t.ttype == TokenType::Eof,
            None => false,
        }),
        all_blank(buf, pos) ==> spec_lex(buf, pos, line).line == line + line_feeds(buf, pos)
            && spec_lex(buf, pos, line).token == Some(
            TokenView {
                ttype: TokenType::Eof,
                value: Seq::empty(),
                line_num: (line + line_feeds(buf, pos)) as u32,
            },
        ),
{
    lemma_skip_to_end(buf, pos, line);
    lemma_skip_blank_bounds(buf, pos, line);
}

/// Scanning is a function of the characters, the offset and the line alone:
/// two buffers with the same characters give the same token, the same cursor
/// after it, and the same token stream.
pub proof fn lemma_lexing_is_deterministic(a: Seq<char>, b: Seq<char>, pos: int, line: int)
    requires
        a.len() == b.len(),
        forall|i: int| 0 <= i < a.len() ==> a[i] == b[i],
    ensures
        spec_lex(a, pos, line) == spec_lex(b, pos, line),
        token_stream(a, pos, line) == token_stream(b, pos, line),
        first_failure(a, pos, line) == first_failure(b, pos, line),
{
    assert(a =~= b);
}

/// A numeric lexeme: one digit or more, then at most one `.` with any number
/// of digits behind it.
pub open spec fn is_number(text: Seq<char>) -> bool {
    let whole = digits_end(text, 0);
    &&& whole > 0
    &&& (whole == text.len() || (text[whole] == '.' && digits_end(text, whole + 1) == text.len()))
}

/// The digits of a part of the buffer end where those of the buffer end, or
/// with the part.
pub proof fn lemma_digits_of_part(buf: Seq<char>, from: int, at: int, to: int)
    requires
        0 <= from <= at <= to <= buf.len(),
    ensures
        digits_end(buf.subrange(from, to), at - from) == (if digits_end(buf, at) < to {
            digits_end(buf, at)
        } else {
            to
        }) - from,
    decreases to - at,
{
    lemma_run_bounds(buf, at);
    if at < to && is_digit(buf[at]) {
        lemma_digits_of_part(buf, from, at + 1, to);
    }
}

/// The text of a number token is a numeric lexeme: it never holds a second
/// `.`.
pub proof fn lemma_number_lexeme(buf: Seq<char>, pos: int, line: int)
    ensures
        match spec_lex(buf, pos, line).token {
            Some(t) => t.ttype == TokenType::Num ==> is_number(t.value),
            None => true,
        },
{
    let (p, l) = skip_blank(buf, pos, line);
    if 0 <= p < buf.len() && symbol_type(buf[p]) is None && is_digit(buf[p]) {
        let whole = digits_end(buf, p);
        lemma_run_bounds(buf, p);
        lemma_run_bounds(buf, p + 1);
        if whole < buf.len() && buf[whole] == '.' {
            let fraction = digits_end(buf, whole + 1);
            lemma_run_bounds(buf, whole + 1);
            lemma_digits_of_part(buf, p, p, fraction);
            lemma_digits_of_part(buf, p, whole + 1, fraction);
        } else {
            lemma_digits_of_part(buf, p, p, whole);
        }
    }
}

/// Where scanning meets no lexical failure, the token stream ends in exactly
/// one end-of-file token; where it meets one, the stream holds no end-of-file
/// token at all.
pub proof fn lemma_token_stream_end(buf: Seq<char>, pos: int, line: int)
    requires
        0 <= pos,
    ensures
        !has_lexical_error(buf, pos, line) ==> ends_in_one_eof(token_stream(buf, pos, line)),
        has_lexical_error(buf, pos, line) ==> has_no_eof(token_stream(buf, pos, line)),
    decreases buf.len() - pos,
{
    let s = spec_lex(buf, pos, line);
    lemma_lex_advances(buf, pos, line);
    match s.token {
        None => {},
        Some(t) => {
            if t.ttype != TokenType::Eof {
                lemma_token_stream_end(buf, s.pos, s.line);
                let rest = token_stream(buf, s.pos, s.line);
                let all = token_stream(buf, pos, line);
                assert(all == seq![t] + rest);
                assert(forall|i: int| 1 <= i < all.len() ==> all[i] == rest[i - 1]);
                if !has_lexical_error(buf, pos, line) {
                    assert(all.last() == rest.last());
                }
            }
        },
    }
}

/// The first lexical failure that repeated scans from the cursor
/// `(pos, line)` meet, if they meet one.
pub open spec fn first_failure(buf: Seq<char>, pos: int, line: int) -> Option<LexicalFailure>
    decreases buf.len() - pos,
    when 0 <= pos
    via first_failure_decreases
{
    match spec_lex(buf, pos, line).token {
        None => Some(failure_at(buf, pos, line)),
        Some(t) => if t.ttype == TokenType::Eof {
            None
        } else {
            first_failure(buf, spec_lex(buf, pos, line).pos, spec_lex(buf, pos, line).line)
        },
    }
}

#[via_fn]
proof fn first_failure_decreases(buf: Seq<char>, pos: int, line: int) {
    lemma_lex_advances(buf, pos, line);
}

/// Scanning meets a lexical failure exactly where there is a first one.
pub proof fn lemma_first_failure(buf: Seq<char>, pos: int, line: int)
    requires
        0 <= pos,
    ensures
        first_failure(buf, pos, line) is Some <==> has_lexical_error(buf, pos, line),
    decreases buf.len() - pos,
{
    let s = spec_lex(buf, pos, line);
    lemma_lex_advances(buf, pos, line);
    if let Some(t) = s.token {
        if t.ttype != TokenType::Eof {
            lemma_first_failure(buf, s.pos, s.line);
        }
    }
}

/// All the tokens of `file_buffer`, scanned from its start at line 1, and the
/// lexical failure that cut scanning short, if one did. Without a failure the
/// tokens end in the end-of-file token, which occurs exactly once; with one
/// they are the tokens before the failure and hold no end-of-file token. The
/// lines of the buffer must fit the line counter: see [`lines_fit`].
pub fn scan_buffer(file_buffer: &str) -> (r: (Vec<Token>, Option<LexicalFailure>))
    requires
        1 + line_feeds(file_buffer@, 0) <= u32::MAX,
    ensures
        token_views(r.0@) == token_stream(file_buffer@, 0, 1),
        r.1 == first_failure(file_buffer@, 0, 1),
        r.1 is Some <==> has_lexical_error(file_buffer@, 0, 1),
        r.1 is None ==> ends_in_one_eof(token_views(r.0@)),
        r.1 is Some ==> has_no_eof(token_views(r.0@)),
{
    let chars = to_chars(file_buffer);
    let mut tokens: Vec<Token> = Vec::new();
    let mut pos: usize = 0;
    let mut line: u32 = 1;
    proof {
        lemma_token_stream_end(chars@, 0, 1);
        lemma_first_failure(chars@, 0, 1);
        assert(token_views(tokens@) =~= Seq::empty());
    }
    loop
        invariant
            chars@ == file_buffer@,
            line + line_feeds(chars@, pos as int) <= u32::MAX,
            token_views(tokens@) + token_stream(chars@, pos as int, line as int) == token_stream(
                chars@,
                0,
                1,
            ),
            first_failure(chars@, pos as int, line as int) == first_failure(chars@, 0, 1),
            first_failure(chars@, 0, 1) is Some <==> has_lexical_error(chars@, 0, 1),
            !has_lexical_error(chars@, 0, 1) ==> ends_in_one_eof(token_stream(chars@, 0, 1)),
            has_lexical_error(chars@, 0, 1) ==> has_no_eof(token_stream(chars@, 0, 1)),
        decreases chars.len() - pos,
    {
        let ghost before = token_views(tokens@);
        let ghost from = pos as int;
        let ghost at = line as int;
        proof {
            lemma_lex_advances(chars@, from, at);
        }
        match lex_chars(&chars, &mut pos, &mut line) {
            Ok(token) => {
                let done = token.ttype == TokenType::Eof;
                tokens.push(token);
                proof {
                    assert(token_views(tokens@) =~= before.push(token@));
                    if done {
                        assert(before + seq![token@] =~= before.push(token@));
                    } else {
                        let rest = token_stream(chars@, pos as int, line as int);
                        assert(before + (seq![token@] + rest) =~= before.push(token@) + rest);
                    }
                }
                if done {
                    return (tokens, None);
                }
            },
            Err(failure) => {
                proof {
                    assert(before + Seq::<TokenView>::empty() =~= before);
                }
                return (tokens, Some(failure));
            },
        }
    }
}

/// [`scan_buffer`] for any buffer: `None` exactly where the lines of the
/// buffer do not fit the line counter.
pub fn scan_checked(file_buffer: &str) -> (r: Option<(Vec<Token>, Option<LexicalFailure>)>)
    ensures
        r is Some <==> 1 + line_feeds(file_buffer@, 0) <= u32::MAX,
        match r {
            Some(found) => {
                &&& token_views(found.0@) == token_stream(file_buffer@, 0, 1)
                &&& found.1 == first_failure(file_buffer@, 0, 1)
                &&& found.1 is None ==> ends_in_one_eof(token_views(found.0@))
                &&& found.1 is Some ==> has_no_eof(token_views(found.0@))
            },
            None => true,
        },
{
    if lines_fit(file_buffer) {
        Some(scan_buffer(file_buffer))
    } else {
        None
    }
}

/// All the tokens of `file_buffer`, scanned from its start at line 1. The
/// result ends in the end-of-file token, which occurs exactly once, unless a
/// lexical failure cut scanning short: then it holds the tokens before the
/// failure and no end-of-file token. The lines of the buffer must fit the
/// line counter: see [`lines_fit`].
pub fn tokenize(file_buffer: &str) -> (tokens: Vec<Token>)
    requires
        1 + line_feeds(file_buffer@, 0) <= u32::MAX,
    ensures
        token_views(tokens@) == token_stream(file_buffer@, 0, 1),
        !has_lexical_error(file_buffer@, 0, 1) ==> ends_in_one_eof(token_views(tokens@)),
        has_lexical_error(file_buffer@, 0, 1) ==> has_no_eof(token_views(tokens@)),
{
    scan_buffer(file_buffer).0
}

} // verus!
