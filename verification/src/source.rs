//! Source text: the text of a sequence of tokens, one token after the other
//! with a space behind each, and what scanning makes of it. Tokens that the
//! lexer can make come back from their text.

use crate::lexer::{
    digits_end, ends_in_one_eof, is_digit, is_number, is_word_part, is_word_start,
    lemma_lex_advances, lemma_number_lexeme, lemma_run_bounds, scan_token, skip_blank, spec_lex,
    string_body, symbol_type, to_chars, token_stream, token_views, word_end, word_type, Scan,
    Token, TokenType, TokenView,
};
use vstd::prelude::*;

verus! {

/// The text of a string literal between its quotes: `"`, `\` and the line
/// feed are written as escapes.
pub open spec fn escaped(text: Seq<char>) -> Seq<char>
    decreases text.len(),
{
    if text.len() == 0 {
        Seq::empty()
    } else {
        let c = text[0];
        (if c == '"' {
            seq!['\\', '"']
        } else if c == '\\' {
            seq!['\\', '\\']
        } else if c == '\n' {
            seq!['\\', 'n']
        } else {
            seq![c]
        }) + escaped(text.drop_first())
    }
}

/// The text of a token: a string literal in quotes, any other token as its
/// own text.
pub open spec fn spelling(t: TokenView) -> Seq<char> {
    if t.ttype == TokenType::Str {
        seq!['"'] + escaped(t.value) + seq!['"']
    } else {
        t.value
    }
}

/// The text of the tokens from index `from` on, with a space behind each.
pub open spec fn source_text(tokens: Seq<TokenView>, from: nat) -> Seq<char>
    decreases tokens.len() - from,
{
    if from >= tokens.len() {
        Seq::empty()
    } else {
        spelling(tokens[from as int]) + seq![' '] + source_text(tokens, from + 1)
    }
}

/// A word: a letter or `_`, then letters, digits and `_`.
pub open spec fn is_word(text: Seq<char>) -> bool {
    &&& text.len() > 0
    &&& is_word_start(text[0])
    &&& forall|i: int| 0 <= i < text.len() ==> is_word_part(#[trigger] text[i])
}

/// Whether the text of the token fits its type, as with every token that the
/// lexer makes.
pub open spec fn is_lexeme(t: TokenView) -> bool {
    match t.ttype {
        TokenType::Num => is_number(t.value),
        TokenType::Str => true,
        TokenType::Eof => t.value.len() == 0,
        TokenType::Equ => t.value == seq!['='],
        TokenType::Les => t.value == seq!['<'],
        TokenType::Gre => t.value == seq!['>'],
        TokenType::Eqv => t.value == seq!['=', '='],
        TokenType::Leq => t.value == seq!['<', '='],
        TokenType::Geq => t.value == seq!['>', '='],
        TokenType::Dot => false,
        TokenType::Slash => false,
        TokenType::Qt => false,
        TokenType::NewLine => false,
        _ => if t.value.len() == 1 && symbol_type(t.value[0]) is Some {
            symbol_type(t.value[0]) == Some(t.ttype)
        } else {
            is_word(t.value) && word_type(t.value) == t.ttype
        },
    }
}

/// Whether the token is one that the lexer can make, on line 1.
pub open spec fn is_printable(t: TokenView) -> bool {
    t.line_num == 1 && is_lexeme(t)
}

/// Each token of the sequence is one whose text fits its type.
pub open spec fn are_lexemes(tokens: Seq<TokenView>) -> bool {
    forall|i: int| 0 <= i < tokens.len() ==> is_lexeme(#[trigger] tokens[i])
}

/// The characters of a word are word characters, up to where it ends.
pub proof fn lemma_word_run(buf: Seq<char>, from: int, i: int)
    requires
        0 <= from <= i < word_end(buf, from),
    ensures
        i < buf.len(),
        is_word_part(buf[i]),
    decreases i - from,
{
    if from < i {
        lemma_word_run(buf, from + 1, i);
    }
}

/// The text of a token that the lexer scans fits its type.
pub proof fn lemma_scan_is_lexeme(buf: Seq<char>, pos: int, line: int)
    ensures
        match spec_lex(buf, pos, line).token {
            Some(t) => is_lexeme(t),
            None => true,
        },
{
    let (p, l) = skip_blank(buf, pos, line);
    lemma_number_lexeme(buf, pos, line);
    if 0 <= p < buf.len() {
        let c = buf[p];
        let t = scan_token(buf, p, l).token;
        if symbol_type(c) is Some {
            assert(buf.subrange(p, p + 1) =~= seq![c]);
            assert(seq![c][0] == c);
        } else if c == '"' {
        } else if c == '=' || c == '<' || c == '>' {
            if p + 1 < buf.len() && buf[p + 1] == '=' {
                assert(buf.subrange(p, p + 2) =~= seq![c, '=']);
            } else {
                assert(buf.subrange(p, p + 1) =~= seq![c]);
            }
        } else if is_digit(c) {
        } else if is_word_start(c) {
            let end = word_end(buf, p + 1);
            let text = buf.subrange(p, end);
            lemma_run_bounds(buf, p + 1);
            assert(text[0] == c);
            assert forall|i: int| 0 <= i < text.len() implies is_word_part(#[trigger] text[i]) by {
                if i > 0 {
                    lemma_word_run(buf, p + 1, p + i);
                }
            }
            assert(is_word(text));
            assert(t->0.value == text);
            assert(t->0.ttype == word_type(text));
        }
    }
}

/// The texts of the tokens of a token stream fit their types.
pub proof fn lemma_stream_is_lexemes(buf: Seq<char>, pos: int, line: int)
    requires
        0 <= pos,
    ensures
        are_lexemes(token_stream(buf, pos, line)),
    decreases buf.len() - pos,
{
    let scan = spec_lex(buf, pos, line);
    lemma_scan_is_lexeme(buf, pos, line);
    lemma_lex_advances(buf, pos, line);
    match scan.token {
        None => {},
        Some(t) => {
            if t.ttype != TokenType::Eof {
                lemma_stream_is_lexemes(buf, scan.pos, scan.line);
                let rest = token_stream(buf, scan.pos, scan.line);
                let all = token_stream(buf, pos, line);
                assert(all == seq![t] + rest);
                assert forall|i: int| 0 <= i < all.len() implies is_lexeme(#[trigger] all[i]) by {
                    if i > 0 {
                        assert(all[i] == rest[i - 1]);
                    }
                }
            }
        },
    }
}

/// The characters `part` stand in `buf` from `pos` on.
#[verifier::opaque]
pub open spec fn spells_at(buf: Seq<char>, pos: int, part: Seq<char>) -> bool {
    &&& 0 <= pos
    &&& pos + part.len() <= buf.len()
    &&& forall|i: int| 0 <= i < part.len() ==> buf[pos + i] == #[trigger] part[i]
}

/// Where two parts stand one after the other, each stands in its place.
pub proof fn lemma_spells_parts(buf: Seq<char>, pos: int, first: Seq<char>, second: Seq<char>)
    requires
        spells_at(buf, pos, first + second),
    ensures
        spells_at(buf, pos, first),
        spells_at(buf, pos + first.len(), second),
{
    reveal(spells_at);
    let whole = first + second;
    assert forall|i: int| 0 <= i < first.len() implies buf[pos + i] == #[trigger] first[i] by {
        assert(whole[i] == first[i]);
    }
    assert forall|i: int| 0 <= i < second.len() implies buf[pos + first.len() + i]
        == #[trigger] second[i] by {
        assert(whole[first.len() + i] == second[i]);
    }
}

/// The character at a position inside a part that stands in `buf`, and the
/// part as a part of `buf`.
pub proof fn lemma_spells_char(buf: Seq<char>, pos: int, part: Seq<char>, i: int)
    requires
        spells_at(buf, pos, part),
        0 <= i < part.len(),
    ensures
        0 <= pos,
        pos + part.len() <= buf.len(),
        buf[pos + i] == part[i],
{
    reveal(spells_at);
}

/// A part that stands in `buf` is that part of `buf`.
pub proof fn lemma_spells_subrange(buf: Seq<char>, pos: int, part: Seq<char>)
    requires
        spells_at(buf, pos, part),
    ensures
        0 <= pos,
        pos + part.len() <= buf.len(),
        buf.subrange(pos, pos + part.len()) == part,
{
    reveal(spells_at);
    assert(buf.subrange(pos, pos + part.len()) =~= part);
}

/// A buffer stands in itself, and so does what stands behind a first part.
pub proof fn lemma_spells_itself(first: Seq<char>, second: Seq<char>)
    ensures
        spells_at(first + second, 0, first + second),
{
    reveal(spells_at);
}

/// The digits of a part that stands in the buffer, with no digit behind it,
/// end in the buffer where they end in the part.
pub proof fn lemma_digits_of_spelled(buf: Seq<char>, pos: int, part: Seq<char>, at: int)
    requires
        spells_at(buf, pos, part),
        0 <= at <= part.len(),
        pos + part.len() < buf.len(),
        !is_digit(buf[pos + part.len()]),
    ensures
        digits_end(buf, pos + at) == pos + digits_end(part, at),
    decreases part.len() - at,
{
    if at < part.len() {
        lemma_spells_char(buf, pos, part, at);
        if is_digit(part[at]) {
            lemma_digits_of_spelled(buf, pos, part, at + 1);
        }
    } else {
        reveal(spells_at);
    }
}

/// A word that stands in the buffer, with no word character behind it, ends
/// in the buffer where it ends.
pub proof fn lemma_word_of_spelled(buf: Seq<char>, pos: int, part: Seq<char>, at: int)
    requires
        spells_at(buf, pos, part),
        0 <= at <= part.len(),
        forall|i: int| 0 <= i < part.len() ==> is_word_part(#[trigger] part[i]),
        pos + part.len() < buf.len(),
        !is_word_part(buf[pos + part.len()]),
    ensures
        word_end(buf, pos + at) == pos + part.len(),
    decreases part.len() - at,
{
    if at < part.len() {
        lemma_spells_char(buf, pos, part, at);
        assert(is_word_part(part[at]));
        lemma_word_of_spelled(buf, pos, part, at + 1);
    } else {
        reveal(spells_at);
    }
}

/// The escaped text of a string literal, with the closing quote behind it,
/// is scanned to the text.
pub proof fn lemma_string_of_spelled(buf: Seq<char>, pos: int, text: Seq<char>, before: Seq<char>)
    requires
        spells_at(buf, pos, escaped(text) + seq!['"']),
    ensures
        string_body(buf, pos, before) == (
            Some(before + text),
            pos + escaped(text).len() + 1,
        ),
    decreases text.len(),
{
    let all = escaped(text) + seq!['"'];
    lemma_spells_char(buf, pos, all, 0);
    if text.len() == 0 {
        assert(before + text =~= before);
    } else {
        let c = text[0];
        let rest = text.drop_first();
        let head = if c == '"' {
            seq!['\\', '"']
        } else if c == '\\' {
            seq!['\\', '\\']
        } else if c == '\n' {
            seq!['\\', 'n']
        } else {
            seq![c]
        };
        assert(all =~= head + (escaped(rest) + seq!['"']));
        lemma_spells_parts(buf, pos, head, escaped(rest) + seq!['"']);
        lemma_spells_char(buf, pos, head, 0);
        let next = if c == '\n' {
            before.push('\n')
        } else {
            before.push(c)
        };
        assert(next + rest =~= before + text);
        if head.len() == 2 {
            lemma_spells_char(buf, pos, head, 1);
        }
        lemma_string_of_spelled(buf, pos + head.len(), rest, next);
    }
}

/// What a scan gives where it finds the token `t`.
pub open spec fn found(t: TokenView, pos: int) -> Scan {
    Scan { token: Some(t), pos: pos + spelling(t).len(), line: 1 }
}

/// A symbol or an operator of one or two characters comes back from its
/// text.
pub proof fn lemma_scan_symbol(buf: Seq<char>, pos: int, t: TokenView)
    requires
        is_printable(t),
        t.value.len() > 0,
        symbol_type(t.value[0]) is Some || t.value[0] == '=' || t.value[0] == '<' || t.value[0]
            == '>',
        t.ttype != TokenType::Str,
        t.ttype != TokenType::Num,
        spells_at(buf, pos, spelling(t) + seq![' ']),
    ensures
        spec_lex(buf, pos, 1) == found(t, pos),
{
    let text = t.value;
    lemma_spells_parts(buf, pos, text, seq![' ']);
    lemma_spells_char(buf, pos, text, 0);
    lemma_spells_char(buf, pos + text.len(), seq![' '], 0);
    lemma_spells_subrange(buf, pos, text);
    if text.len() == 2 {
        lemma_spells_char(buf, pos, text, 1);
    }
    assert(skip_blank(buf, pos, 1) == (pos, 1int));
}

/// A number comes back from its text.
pub proof fn lemma_scan_number(buf: Seq<char>, pos: int, t: TokenView)
    requires
        is_printable(t),
        t.ttype == TokenType::Num,
        spells_at(buf, pos, spelling(t) + seq![' ']),
    ensures
        spec_lex(buf, pos, 1) == found(t, pos),
{
    let text = t.value;
    let whole = digits_end(text, 0);
    lemma_spells_parts(buf, pos, text, seq![' ']);
    lemma_spells_char(buf, pos, text, 0);
    lemma_spells_char(buf, pos + text.len(), seq![' '], 0);
    lemma_spells_subrange(buf, pos, text);
    lemma_digits_of_spelled(buf, pos, text, 0);
    if whole < text.len() {
        lemma_spells_char(buf, pos, text, whole);
        lemma_digits_of_spelled(buf, pos, text, whole + 1);
    }
    assert(skip_blank(buf, pos, 1) == (pos, 1int));
}

/// A word, be it a keyword or an identifier, comes back from its text.
pub proof fn lemma_scan_word(buf: Seq<char>, pos: int, t: TokenView)
    requires
        is_printable(t),
        is_word(t.value),
        word_type(t.value) == t.ttype,
        spells_at(buf, pos, spelling(t) + seq![' ']),
    ensures
        spec_lex(buf, pos, 1) == found(t, pos),
{
    let text = t.value;
    lemma_spells_parts(buf, pos, text, seq![' ']);
    lemma_spells_char(buf, pos, text, 0);
    lemma_spells_char(buf, pos + text.len(), seq![' '], 0);
    lemma_spells_subrange(buf, pos, text);
    lemma_word_of_spelled(buf, pos, text, 1);
    assert(skip_blank(buf, pos, 1) == (pos, 1int));
}

/// A string literal comes back from its text.
pub proof fn lemma_scan_string(buf: Seq<char>, pos: int, t: TokenView)
    requires
        is_printable(t),
        t.ttype == TokenType::Str,
        spells_at(buf, pos, spelling(t) + seq![' ']),
    ensures
        spec_lex(buf, pos, 1) == found(t, pos),
{
    let open = seq!['"'];
    let inside = escaped(t.value) + seq!['"'];
    assert(spelling(t) + seq![' '] =~= open + (inside + seq![' ']));
    lemma_spells_parts(buf, pos, open, inside + seq![' ']);
    lemma_spells_parts(buf, pos + 1, inside, seq![' ']);
    lemma_spells_char(buf, pos, open, 0);
    lemma_string_of_spelled(buf, pos + 1, t.value, Seq::empty());
    assert(Seq::<char>::empty() + t.value =~= t.value);
    assert(skip_blank(buf, pos, 1) == (pos, 1int));
}

/// A token that the lexer can make, other than the end-of-file token, comes
/// back from its text: a scan where the text stands, with a space behind it,
/// gives the token and stops behind the text.
pub proof fn lemma_scan_spelled(buf: Seq<char>, pos: int, t: TokenView)
    requires
        is_printable(t),
        t.ttype != TokenType::Eof,
        spells_at(buf, pos, spelling(t) + seq![' ']),
    ensures
        spec_lex(buf, pos, 1) == found(t, pos),
{
    if t.ttype == TokenType::Str {
        lemma_scan_string(buf, pos, t);
    } else if t.ttype == TokenType::Num {
        lemma_scan_number(buf, pos, t);
    } else if t.value.len() > 0 && (symbol_type(t.value[0]) is Some || t.value[0] == '='
        || t.value[0] == '<' || t.value[0] == '>') {
        lemma_scan_symbol(buf, pos, t);
    } else {
        lemma_scan_word(buf, pos, t);
    }
}

/// Each token of the sequence is one that the lexer can make, and the
/// sequence ends in the end-of-file token, which occurs exactly once.
pub open spec fn is_printable_stream(tokens: Seq<TokenView>) -> bool {
    &&& ends_in_one_eof(tokens)
    &&& forall|i: int| 0 <= i < tokens.len() ==> is_printable(#[trigger] tokens[i])
}

/// A space before the cursor changes nothing in what is scanned.
proof fn lemma_space_is_skipped(buf: Seq<char>, pos: int)
    requires
        0 <= pos < buf.len(),
        buf[pos] == ' ',
    ensures
        spec_lex(buf, pos, 1) == spec_lex(buf, pos + 1, 1),
        token_stream(buf, pos, 1) == token_stream(buf, pos + 1, 1),
{
    assert(skip_blank(buf, pos, 1) == skip_blank(buf, pos + 1, 1));
}

/// The tokens from index `from` on come back from their text, where the text
/// stands at the end of the buffer.
pub proof fn lemma_stream_of_text(tokens: Seq<TokenView>, from: nat, buf: Seq<char>, pos: int)
    requires
        is_printable_stream(tokens),
        from < tokens.len(),
        spells_at(buf, pos, source_text(tokens, from)),
        pos + source_text(tokens, from).len() == buf.len(),
    ensures
        token_stream(buf, pos, 1) == tokens.subrange(from as int, tokens.len() as int),
    decreases tokens.len() - from,
{
    let t = tokens[from as int];
    let text = spelling(t);
    let rest = source_text(tokens, from + 1);
    assert(is_printable(t));
    assert(source_text(tokens, from) =~= (text + seq![' ']) + rest);
    lemma_spells_parts(buf, pos, text + seq![' '], rest);
    lemma_spells_parts(buf, pos, text, seq![' ']);
    lemma_spells_char(buf, pos + text.len(), seq![' '], 0);
    if from + 1 == tokens.len() {
        assert(t == tokens.last());
        assert(text.len() == 0);
        assert(rest.len() == 0);
        assert(skip_blank(buf, pos + 1, 1) == (pos + 1, 1int));
        assert(skip_blank(buf, pos, 1) == (pos + 1, 1int));
        assert(t.value =~= Seq::<char>::empty());
        assert(tokens.subrange(from as int, tokens.len() as int) =~= seq![t]);
    } else {
        assert(t.ttype != TokenType::Eof);
        lemma_scan_spelled(buf, pos, t);
        lemma_lex_advances(buf, pos, 1);
        lemma_space_is_skipped(buf, pos + text.len());
        lemma_stream_of_text(tokens, from + 1, buf, pos + text.len() + 1);
        assert(tokens.subrange(from as int, tokens.len() as int) =~= seq![t] + tokens.subrange(
            from as int + 1,
            tokens.len() as int,
        ));
    }
}

/// Tokens that the lexer can make come back from their text: scanning the
/// text of the sequence gives the sequence.
pub proof fn lemma_text_lexes_back(tokens: Seq<TokenView>)
    requires
        is_printable_stream(tokens),
    ensures
        token_stream(source_text(tokens, 0), 0, 1) == tokens,
{
    let text = source_text(tokens, 0);
    lemma_spells_itself(text, Seq::empty());
    assert(text + Seq::<char>::empty() =~= text);
    lemma_stream_of_text(tokens, 0, text, 0);
    assert(tokens.subrange(0, tokens.len() as int) =~= tokens);
}

// ---------------------------------------------------------------------------
// Writing text
// ---------------------------------------------------------------------------

/// Appends the characters to the text.
fn write_chars(out: &mut String, chars: &Vec<char>)
    ensures
        final(out)@ == old(out)@ + chars@,
{
    let ghost before = out@;
    let mut i: usize = 0;
    while i < chars.len()
        invariant
            i <= chars.len(),
            out@ == before + chars@.take(i as int),
        decreases chars.len() - i,
    {
        out.push(chars[i]);
        assert(chars@.take(i as int).push(chars@[i as int]) =~= chars@.take(i + 1));
        assert(out@ =~= before + chars@.take(i + 1));
        i += 1;
    }
    assert(chars@.take(i as int) =~= chars@);
}

/// Appends the characters of a string literal to the text, with `"`, `\` and
/// the line feed as escapes.
fn write_escaped(out: &mut String, chars: &Vec<char>)
    ensures
        final(out)@ == old(out)@ + escaped(chars@),
{
    let ghost before = out@;
    let n = chars.len();
    let mut i: usize = 0;
    assert(chars@.subrange(0, n as int) =~= chars@);
    while i < n
        invariant
            n == chars.len(),
            i <= n,
            out@ + escaped(chars@.subrange(i as int, n as int)) == before + escaped(chars@),
        decreases n - i,
    {
        let ghost so_far = out@;
        let ghost left = chars@.subrange(i as int, n as int);
        assert(left.drop_first() =~= chars@.subrange(i + 1, n as int));
        let c = chars[i];
        if c == '"' {
            out.push('\\');
            out.push('"');
        } else if c == '\\' {
            out.push('\\');
            out.push('\\');
        } else if c == '\n' {
            out.push('\\');
            out.push('n');
        } else {
            out.push(c);
        }
        assert(out@ + escaped(left.drop_first()) =~= so_far + escaped(left));
        i += 1;
    }
    assert(escaped(chars@.subrange(n as int, n as int)) =~= Seq::<char>::empty());
    assert(out@ =~= before + escaped(chars@));
}

/// The text of the tokens, one after the other with a space behind each; a
/// string literal stands in quotes, with `"`, `\` and the line feed as
/// escapes. Where each token is one that the lexer can make, on line 1, and
/// the end-of-file token ends the sequence, scanning the text gives the
/// tokens again.
pub fn to_source(tokens: &Vec<Token>) -> (text: String)
    ensures
        text@ == source_text(token_views(tokens@), 0),
        is_printable_stream(token_views(tokens@)) ==> token_stream(text@, 0, 1) == token_views(
            tokens@,
        ),
{
    let ghost all = token_views(tokens@);
    let mut text = String::new();
    let mut i: usize = 0;
    assert(text@ + source_text(all, 0) =~= source_text(all, 0));
    while i < tokens.len()
        invariant
            i <= tokens.len(),
            all == token_views(tokens@),
            text@ + source_text(all, i as nat) == source_text(all, 0),
        decreases tokens.len() - i,
    {
        let ghost so_far = text@;
        let token = &tokens[i];
        let chars = to_chars(token.value.as_str());
        if token.ttype == TokenType::Str {
            text.push('"');
            write_escaped(&mut text, &chars);
            text.push('"');
        } else {
            write_chars(&mut text, &chars);
        }
        text.push(' ');
        assert(all[i as int] == token@);
        assert(text@ =~= so_far + (spelling(token@) + seq![' ']));
        assert(text@ + source_text(all, (i + 1) as nat) =~= so_far + source_text(all, i as nat));
        i += 1;
    }
    proof {
        assert(text@ =~= text@ + source_text(all, i as nat));
        if is_printable_stream(all) {
            lemma_text_lexes_back(all);
        }
    }
    text
}

} // verus!
