//! The tokenizer: turns source text into tokens, one at a time.
use vstd::prelude::*;
use vstd::std_specs::iter::IteratorSpec;
use crate::chars::{
    ascii_digit, digit_value, is_alphabetic, is_alphanumeric, is_whitespace, letter,
    letter_or_digit, space, to_digit,
};
use crate::token::{Tok, Token, opt_view};

verus! {

/// The character at `i`, if `i` is a position of `cs`.
pub open spec fn at(cs: Seq<char>, i: int) -> Option<char> {
    if 0 <= i < cs.len() {
        Some(cs[i])
    } else {
        None
    }
}

/// The first position at or after `i` that does not hold whitespace.
pub open spec fn skip_whitespace(cs: Seq<char>, i: int) -> int
    decreases cs.len() - i,
{
    if 0 <= i < cs.len() && space(cs[i]) {
        skip_whitespace(cs, i + 1)
    } else {
        i
    }
}

/// The end of the longest run of base-`radix` digits that starts at `i`.
pub open spec fn digits_end(cs: Seq<char>, i: int, radix: u32) -> int
    decreases cs.len() - i,
{
    if 0 <= i < cs.len() && digit_value(cs[i], radix) is Some {
        digits_end(cs, i + 1, radix)
    } else {
        i
    }
}

/// The number that the base-`radix` digits `cs[i..k]` denote.
pub open spec fn digits_value(cs: Seq<char>, i: int, k: int, radix: u32) -> int
    decreases k - i,
{
    if k <= i {
        0
    } else {
        digits_value(cs, i, k - 1, radix) * radix + digit_value(cs[k - 1], radix)->0
    }
}

/// An integer literal whose digits start at `start`: at least one digit,
/// no letter right after the digits, and a value that fits in `i64`.
pub open spec fn number(cs: Seq<char>, start: int, radix: u32) -> Option<(Tok, int)> {
    let k = digits_end(cs, start, radix);
    let v = digits_value(cs, start, k, radix);
    if k == start {
        None
    } else if k < cs.len() && letter(cs[k]) {
        None
    } else if v > i64::MAX {
        None
    } else {
        Some((Token::Int(v as i64), k))
    }
}

pub open spec fn is_word_char(c: char) -> bool {
    letter_or_digit(c) || c == '_'
}

/// The end of the longest run of letters, digits and underscores from `i`.
pub open spec fn word_end(cs: Seq<char>, i: int) -> int
    decreases cs.len() - i,
{
    if 0 <= i < cs.len() && is_word_char(cs[i]) {
        word_end(cs, i + 1)
    } else {
        i
    }
}

/// The end of the name that starts at `i`: its first character, the word
/// that follows, and one optional trailing `?` or `!`.
pub open spec fn name_end(cs: Seq<char>, i: int) -> int {
    let k = word_end(cs, i + 1);
    if at(cs, k) == Some('?') || at(cs, k) == Some('!') {
        k + 1
    } else {
        k
    }
}

pub open spec fn keyword_of(w: Seq<char>) -> Option<Tok> {
    if w == seq!['i', 'f'] {
        Some(Token::If)
    } else if w == seq!['e', 'l', 's', 'e'] {
        Some(Token::Else)
    } else if w == seq!['f', 'o', 'r'] {
        Some(Token::For)
    } else if w == seq!['i', 'n'] {
        Some(Token::In)
    } else if w == seq!['w', 'h', 'i', 'l', 'e'] {
        Some(Token::While)
    } else if w == seq!['l', 'e', 't'] {
        Some(Token::Let)
    } else if w == seq!['m', 'u', 't'] {
        Some(Token::Mut)
    } else if w == seq!['r', 'e', 't', 'u', 'r', 'n'] {
        Some(Token::Return)
    } else if w == seq!['f', 'n'] {
        Some(Token::Fn)
    } else if w == seq!['s', 't', 'r', 'u', 'c', 't'] {
        Some(Token::Struct)
    } else if w == seq!['e', 'n', 'u', 'm'] {
        Some(Token::Enum)
    } else if w == seq!['f', 'l', 'a', 'g'] {
        Some(Token::Flag)
    } else if w == seq!['s', 'w', 'i', 't', 'c', 'h'] {
        Some(Token::Switch)
    } else if w == seq!['c', 'a', 's', 'e'] {
        Some(Token::Case)
    } else if w == seq!['d', 'e', 'f', 'a', 'u', 'l', 't'] {
        Some(Token::Default)
    } else if w == seq!['a', 'n', 'd'] {
        Some(Token::And)
    } else if w == seq!['o', 'r'] {
        Some(Token::Or)
    } else if w == seq!['n', 'o', 't'] {
        Some(Token::Not)
    } else {
        None
    }
}

/// A name is a keyword when the keyword table lists it, else an identifier.
pub open spec fn name_token(w: Seq<char>) -> Tok {
    match keyword_of(w) {
        Some(t) => t,
        None => Token::Ident(w),
    }
}

/// The position of the quote that closes a string literal whose contents
/// start at `j`; a backslash makes the character after it part of the
/// contents.
pub open spec fn string_close(cs: Seq<char>, j: int) -> Option<int>
    decreases cs.len() - j,
{
    if j < 0 || j >= cs.len() {
        None
    } else if cs[j] == '"' {
        Some(j)
    } else if cs[j] == '\\' {
        if j + 1 < cs.len() {
            string_close(cs, j + 2)
        } else {
            None
        }
    } else {
        string_close(cs, j + 1)
    }
}

/// The character that a backslash followed by `c` stands for.
pub open spec fn escape(c: char) -> Option<char> {
    if c == 'n' {
        Some('\n')
    } else if c == 't' {
        Some('\t')
    } else if c == 'r' {
        Some('\r')
    } else if c == '0' {
        Some('\0')
    } else if c == '\\' || c == '\'' || c == '"' {
        Some(c)
    } else {
        None
    }
}

/// A character literal opened by the quote at `i`: one character, or a
/// backslash and an escape, then a closing quote.
pub open spec fn char_literal(cs: Seq<char>, i: int) -> Option<(Tok, int)> {
    if at(cs, i + 1) == Some('\\') {
        if at(cs, i + 2) is Some && at(cs, i + 3) == Some('\'') && escape(cs[i + 2]) is Some {
            Some((Token::CharLit(escape(cs[i + 2])->0), i + 4))
        } else {
            None
        }
    } else if at(cs, i + 1) is Some && at(cs, i + 2) == Some('\'') {
        Some((Token::CharLit(cs[i + 1]), i + 3))
    } else {
        None
    }
}

/// A bare operator, its compound assignment when `=` follows.
pub open spec fn with_assign(cs: Seq<char>, i: int, bare: Tok, assign: Tok) -> (Tok, int) {
    if at(cs, i + 1) == Some('=') {
        (assign, i + 2)
    } else {
        (bare, i + 1)
    }
}

/// The punctuation or operator at `i`, the longest that matches; a
/// character that starts none is a token of its own.
pub open spec fn operator(cs: Seq<char>, i: int) -> (Tok, int) {
    let c = cs[i];
    let n1 = at(cs, i + 1);
    if c == ';' {
        (Token::Semicolon, i + 1)
    } else if c == ',' {
        (Token::Comma, i + 1)
    } else if c == ':' {
        (Token::Colon, i + 1)
    } else if c == '(' {
        (Token::OpenParen, i + 1)
    } else if c == ')' {
        (Token::CloseParen, i + 1)
    } else if c == '[' {
        (Token::OpenSquare, i + 1)
    } else if c == ']' {
        (Token::CloseSquare, i + 1)
    } else if c == '{' {
        (Token::OpenCurly, i + 1)
    } else if c == '}' {
        (Token::CloseCurly, i + 1)
    } else if c == '~' {
        (Token::Tilde, i + 1)
    } else if c == '-' {
        if n1 == Some('>') {
            (Token::Arrow, i + 2)
        } else {
            with_assign(cs, i, Token::Minus, Token::MinusEquals)
        }
    } else if c == '&' {
        with_assign(cs, i, Token::Ampersand, Token::AndEquals)
    } else if c == '=' {
        with_assign(cs, i, Token::Equals, Token::EqualsEquals)
    } else if c == '!' {
        with_assign(cs, i, Token::Char('!'), Token::BangEquals)
    } else if c == '+' {
        with_assign(cs, i, Token::Plus, Token::PlusEquals)
    } else if c == '*' {
        with_assign(cs, i, Token::Star, Token::StarEquals)
    } else if c == '/' {
        with_assign(cs, i, Token::Slash, Token::SlashEquals)
    } else if c == '%' {
        with_assign(cs, i, Token::Percent, Token::PercentEquals)
    } else if c == '^' {
        with_assign(cs, i, Token::Carat, Token::CaratEquals)
    } else if c == '|' {
        with_assign(cs, i, Token::Pipe, Token::PipeEquals)
    } else if c == '<' {
        if n1 == Some('=') {
            (Token::LessThanEquals, i + 2)
        } else if n1 == Some('<') {
            with_assign(cs, i + 1, Token::LessThanLessThan, Token::LessThanLessThanEquals)
        } else {
            (Token::LessThan, i + 1)
        }
    } else if c == '>' {
        if n1 == Some('=') {
            (Token::GreaterThanEquals, i + 2)
        } else if n1 == Some('>') {
            with_assign(
                cs,
                i + 1,
                Token::GreaterThanGreaterThan,
                Token::GreaterThanGreaterThanEquals,
            )
        } else {
            (Token::GreaterThan, i + 1)
        }
    } else if c == '.' {
        if n1 == Some('.') {
            (Token::DotDot, i + 2)
        } else {
            (Token::Dot, i + 1)
        }
    } else {
        (Token::Char(c), i + 1)
    }
}

/// The token that starts exactly at `i`, with the position after it; `None`
/// at the end of the text and on a malformed literal.
pub open spec fn scan(cs: Seq<char>, i: int) -> Option<(Tok, int)> {
    if !(0 <= i < cs.len()) {
        None
    } else {
        let c = cs[i];
        let n1 = at(cs, i + 1);
        if c == '0' {
            if n1 == Some('x') {
                number(cs, i + 2, 16)
            } else if n1 == Some('o') {
                number(cs, i + 2, 8)
            } else if n1 == Some('b') {
                number(cs, i + 2, 2)
            } else if n1 is Some && ascii_digit(n1->0) {
                number(cs, i + 1, 10)
            } else if n1 is Some && letter(n1->0) {
                None
            } else {
                Some((Token::Int(0), i + 1))
            }
        } else if ascii_digit(c) {
            number(cs, i, 10)
        } else if letter(c) || c == '_' {
            let k = name_end(cs, i);
            Some((name_token(cs.subrange(i, k)), k))
        } else if c == '"' {
            match string_close(cs, i + 1) {
                Some(k) => Some((Token::Str(cs.subrange(i + 1, k)), k + 1)),
                None => None,
            }
        } else if c == '\'' {
            char_literal(cs, i)
        } else {
            Some(operator(cs, i))
        }
    }
}

/// The next token after any whitespace at `i`.
pub open spec fn next_tok(cs: Seq<char>, i: int) -> Option<(Tok, int)> {
    scan(cs, skip_whitespace(cs, i))
}

/// All tokens from position `i` on, up to the end of the text or up to a
/// malformed literal, whichever comes first.
pub open spec fn lex_seq(cs: Seq<char>, i: int) -> Seq<Tok>
    decreases cs.len() - i,
{
    if 0 <= i <= cs.len() {
        match next_tok(cs, i) {
            Some((t, j)) => if i < j <= cs.len() {
                seq![t] + lex_seq(cs, j)
            } else {
                Seq::empty()
            },
            None => Seq::empty(),
        }
    } else {
        Seq::empty()
    }
}

/// Whether the tokens from `i` on run to the end of the text, rather than
/// stopping at a malformed literal.
pub open spec fn lex_clean(cs: Seq<char>, i: int) -> bool
    decreases cs.len() - i,
{
    if 0 <= i <= cs.len() {
        match next_tok(cs, i) {
            Some((t, j)) => if i < j <= cs.len() {
                lex_clean(cs, j)
            } else {
                false
            },
            None => skip_whitespace(cs, i) >= cs.len(),
        }
    } else {
        false
    }
}

/// All tokens of a text.
pub open spec fn tokens_of(cs: Seq<char>) -> Seq<Tok> {
    lex_seq(cs, 0)
}

/// Whether lexing a text ends at its end rather than at a malformed literal.
pub open spec fn lexes_cleanly(cs: Seq<char>) -> bool {
    lex_clean(cs, 0)
}

proof fn lemma_accumulate(v: int, r: int, d: int, m: int)
    requires
        0 <= v,
        2 <= r,
        0 <= d < r,
        d <= m,
    ensures
        v <= (m - d) / r ==> v * r + d <= m,
        v > (m - d) / r ==> v * r + d > m,
        v > m ==> v * r + d > m,
{
    let q = (m - d) / r;
    vstd::arithmetic::div_mod::lemma_fundamental_div_mod(m - d, r);
    vstd::arithmetic::div_mod::lemma_mod_pos_bound(m - d, r);
    if v <= q {
        assert(v * r <= q * r) by (nonlinear_arith)
            requires
                v <= q,
                r >= 0,
        ;
        assert(r * q == q * r) by (nonlinear_arith);
    }
    if v > q {
        assert(v * r >= (q + 1) * r) by (nonlinear_arith)
            requires
                v >= q + 1,
                r >= 0,
        ;
        assert((q + 1) * r == q * r + r) by (nonlinear_arith);
        assert(r * q == q * r) by (nonlinear_arith);
    }
    if v > m {
        assert(v * r >= v) by (nonlinear_arith)
            requires
                v >= 0,
                r >= 1,
        ;
    }
}

proof fn lemma_digits_value_nonneg(cs: Seq<char>, i: int, k: int, radix: u32)
    ensures
        digits_value(cs, i, k, radix) >= 0,
    decreases k - i,
{
    if k > i {
        lemma_digits_value_nonneg(cs, i, k - 1, radix);
        let v = digits_value(cs, i, k - 1, radix);
        assert(v * radix >= 0) by (nonlinear_arith)
            requires
                v >= 0,
        ;
    }
}

/// The keyword that `cs[s..e]` spells, if any.
fn keyword<'a>(cs: &Vec<char>, s: usize, e: usize) -> (r: Option<Token<&'a str>>)
    requires
        s <= e <= cs.len(),
    ensures
        opt_view(r) == keyword_of(cs@.subrange(s as int, e as int)),
{
    let n = e - s;
    if n == 2 && cs[s] == 'i' && cs[s + 1] == 'f' {
        assert(cs@.subrange(s as int, e as int) =~= seq!['i', 'f']);
        return Some(Token::If);
    }
    if n == 4 && cs[s] == 'e' && cs[s + 1] == 'l' && cs[s + 2] == 's' && cs[s + 3] == 'e' {
        assert(cs@.subrange(s as int, e as int) =~= seq!['e', 'l', 's', 'e']);
        return Some(Token::Else);
    }
    if n == 3 && cs[s] == 'f' && cs[s + 1] == 'o' && cs[s + 2] == 'r' {
        assert(cs@.subrange(s as int, e as int) =~= seq!['f', 'o', 'r']);
        return Some(Token::For);
    }
    if n == 2 && cs[s] == 'i' && cs[s + 1] == 'n' {
        assert(cs@.subrange(s as int, e as int) =~= seq!['i', 'n']);
        return Some(Token::In);
    }
    if n == 5 && cs[s] == 'w' && cs[s + 1] == 'h' && cs[s + 2] == 'i' && cs[s + 3] == 'l' && cs[s + 4] == 'e' {
        assert(cs@.subrange(s as int, e as int) =~= seq!['w', 'h', 'i', 'l', 'e']);
        return Some(Token::While);
    }
    if n == 3 && cs[s] == 'l' && cs[s + 1] == 'e' && cs[s + 2] == 't' {
        assert(cs@.subrange(s as int, e as int) =~= seq!['l', 'e', 't']);
        return Some(Token::Let);
    }
    if n == 3 && cs[s] == 'm' && cs[s + 1] == 'u' && cs[s + 2] == 't' {
        assert(cs@.subrange(s as int, e as int) =~= seq!['m', 'u', 't']);
        return Some(Token::Mut);
    }
    if n == 6 && cs[s] == 'r' && cs[s + 1] == 'e' && cs[s + 2] == 't' && cs[s + 3] == 'u' && cs[s + 4] == 'r' && cs[s + 5] == 'n' {
        assert(cs@.subrange(s as int, e as int) =~= seq!['r', 'e', 't', 'u', 'r', 'n']);
        return Some(Token::Return);
    }
    if n == 2 && cs[s] == 'f' && cs[s + 1] == 'n' {
        assert(cs@.subrange(s as int, e as int) =~= seq!['f', 'n']);
        return Some(Token::Fn);
    }
    if n == 6 && cs[s] == 's' && cs[s + 1] == 't' && cs[s + 2] == 'r' && cs[s + 3] == 'u' && cs[s + 4] == 'c' && cs[s + 5] == 't' {
        assert(cs@.subrange(s as int, e as int) =~= seq!['s', 't', 'r', 'u', 'c', 't']);
        return Some(Token::Struct);
    }
    if n == 4 && cs[s] == 'e' && cs[s + 1] == 'n' && cs[s + 2] == 'u' && cs[s + 3] == 'm' {
        assert(cs@.subrange(s as int, e as int) =~= seq!['e', 'n', 'u', 'm']);
        return Some(Token::Enum);
    }
    if n == 4 && cs[s] == 'f' && cs[s + 1] == 'l' && cs[s + 2] == 'a' && cs[s + 3] == 'g' {
        assert(cs@.subrange(s as int, e as int) =~= seq!['f', 'l', 'a', 'g']);
        return Some(Token::Flag);
    }
    if n == 6 && cs[s] == 's' && cs[s + 1] == 'w' && cs[s + 2] == 'i' && cs[s + 3] == 't' && cs[s + 4] == 'c' && cs[s + 5] == 'h' {
        assert(cs@.subrange(s as int, e as int) =~= seq!['s', 'w', 'i', 't', 'c', 'h']);
        return Some(Token::Switch);
    }
    if n == 4 && cs[s] == 'c' && cs[s + 1] == 'a' && cs[s + 2] == 's' && cs[s + 3] == 'e' {
        assert(cs@.subrange(s as int, e as int) =~= seq!['c', 'a', 's', 'e']);
        return Some(Token::Case);
    }
    if n == 7 && cs[s] == 'd' && cs[s + 1] == 'e' && cs[s + 2] == 'f' && cs[s + 3] == 'a' && cs[s + 4] == 'u' && cs[s + 5] == 'l' && cs[s + 6] == 't' {
        assert(cs@.subrange(s as int, e as int) =~= seq!['d', 'e', 'f', 'a', 'u', 'l', 't']);
        return Some(Token::Default);
    }
    if n == 3 && cs[s] == 'a' && cs[s + 1] == 'n' && cs[s + 2] == 'd' {
        assert(cs@.subrange(s as int, e as int) =~= seq!['a', 'n', 'd']);
        return Some(Token::And);
    }
    if n == 2 && cs[s] == 'o' && cs[s + 1] == 'r' {
        assert(cs@.subrange(s as int, e as int) =~= seq!['o', 'r']);
        return Some(Token::Or);
    }
    if n == 3 && cs[s] == 'n' && cs[s + 1] == 'o' && cs[s + 2] == 't' {
        assert(cs@.subrange(s as int, e as int) =~= seq!['n', 'o', 't']);
        return Some(Token::Not);
    }
    proof {
        let w = cs@.subrange(s as int, e as int);
        assert(w.len() == n);
        if w == seq!['i', 'f'] {
            assert(w[0] == cs@[s as int] && w[1] == cs@[s + 1]);
        }
        if w == seq!['e', 'l', 's', 'e'] {
            assert(w[0] == cs@[s as int] && w[1] == cs@[s + 1] && w[2] == cs@[s + 2] && w[3] == cs@[s + 3]);
        }
        if w == seq!['f', 'o', 'r'] {
            assert(w[0] == cs@[s as int] && w[1] == cs@[s + 1] && w[2] == cs@[s + 2]);
        }
        if w == seq!['i', 'n'] {
            assert(w[0] == cs@[s as int] && w[1] == cs@[s + 1]);
        }
        if w == seq!['w', 'h', 'i', 'l', 'e'] {
            assert(w[0] == cs@[s as int] && w[1] == cs@[s + 1] && w[2] == cs@[s + 2] && w[3] == cs@[s + 3] && w[4] == cs@[s + 4]);
        }
        if w == seq!['l', 'e', 't'] {
            assert(w[0] == cs@[s as int] && w[1] == cs@[s + 1] && w[2] == cs@[s + 2]);
        }
        if w == seq!['m', 'u', 't'] {
            assert(w[0] == cs@[s as int] && w[1] == cs@[s + 1] && w[2] == cs@[s + 2]);
        }
        if w == seq!['r', 'e', 't', 'u', 'r', 'n'] {
            assert(w[0] == cs@[s as int] && w[1] == cs@[s + 1] && w[2] == cs@[s + 2] && w[3] == cs@[s + 3] && w[4] == cs@[s + 4] && w[5] == cs@[s + 5]);
        }
        if w == seq!['f', 'n'] {
            assert(w[0] == cs@[s as int] && w[1] == cs@[s + 1]);
        }
        if w == seq!['s', 't', 'r', 'u', 'c', 't'] {
            assert(w[0] == cs@[s as int] && w[1] == cs@[s + 1] && w[2] == cs@[s + 2] && w[3] == cs@[s + 3] && w[4] == cs@[s + 4] && w[5] == cs@[s + 5]);
        }
        if w == seq!['e', 'n', 'u', 'm'] {
            assert(w[0] == cs@[s as int] && w[1] == cs@[s + 1] && w[2] == cs@[s + 2] && w[3] == cs@[s + 3]);
        }
        if w == seq!['f', 'l', 'a', 'g'] {
            assert(w[0] == cs@[s as int] && w[1] == cs@[s + 1] && w[2] == cs@[s + 2] && w[3] == cs@[s + 3]);
        }
        if w == seq!['s', 'w', 'i', 't', 'c', 'h'] {
            assert(w[0] == cs@[s as int] && w[1] == cs@[s + 1] && w[2] == cs@[s + 2] && w[3] == cs@[s + 3] && w[4] == cs@[s + 4] && w[5] == cs@[s + 5]);
        }
        if w == seq!['c', 'a', 's', 'e'] {
            assert(w[0] == cs@[s as int] && w[1] == cs@[s + 1] && w[2] == cs@[s + 2] && w[3] == cs@[s + 3]);
        }
        if w == seq!['d', 'e', 'f', 'a', 'u', 'l', 't'] {
            assert(w[0] == cs@[s as int] && w[1] == cs@[s + 1] && w[2] == cs@[s + 2] && w[3] == cs@[s + 3] && w[4] == cs@[s + 4] && w[5] == cs@[s + 5] && w[6] == cs@[s + 6]);
        }
        if w == seq!['a', 'n', 'd'] {
            assert(w[0] == cs@[s as int] && w[1] == cs@[s + 1] && w[2] == cs@[s + 2]);
        }
        if w == seq!['o', 'r'] {
            assert(w[0] == cs@[s as int] && w[1] == cs@[s + 1]);
        }
        if w == seq!['n', 'o', 't'] {
            assert(w[0] == cs@[s as int] && w[1] == cs@[s + 1] && w[2] == cs@[s + 2]);
        }
    }
    None
}

/// A tokenizer over one text. It hands out the text's tokens in order,
/// and none after the end of the text or after a malformed literal.
pub struct Lexer<'a> {
    input: &'a str,
    chars: Vec<char>,
    pos: usize,
}

impl<'a> Lexer<'a> {
    /// The characters of the text.
    pub closed spec fn text(&self) -> Seq<char> {
        self.input@
    }

    /// How many characters have been read.
    pub closed spec fn position(&self) -> int {
        self.pos as int
    }

    pub closed spec fn wf(&self) -> bool {
        &&& self.chars@ == self.input@
        &&& self.pos <= self.chars.len()
    }

    /// The tokens that are still to come.
    pub open spec fn rest(&self) -> Seq<Tok> {
        lex_seq(self.text(), self.position())
    }

    /// Whether the tokens still to come run to the end of the text.
    pub open spec fn clean(&self) -> bool {
        lex_clean(self.text(), self.position())
    }

    /// A tokenizer positioned at the start of `input`.
    pub fn new(input: &'a str) -> (r: Lexer<'a>)
        ensures
            r.wf(),
            r.text() == input@,
            r.position() == 0,
            r.rest() == tokens_of(input@),
            r.clean() == lexes_cleanly(input@),
    {
        let mut chars: Vec<char> = Vec::new();
        let mut it = input.chars();
        loop
            invariant
                chars@ + it.remaining() == input@,
                it.obeys_prophetic_iter_laws(),
                it.decrease() is Some,
            ensures
                chars@ == input@,
            decreases it.decrease()->0,
        {
            match it.next() {
                Some(c) => {
                    chars.push(c);
                },
                None => {
                    assert(it.remaining().len() == 0);
                    assert(chars@ =~= input@);
                    break;
                },
            }
        }
        Lexer { input, chars, pos: 0 }
    }

    /// The token that starts exactly at `i`.
    fn scan(&self, i: usize) -> (r: Option<(Token<&'a str>, usize)>)
        requires
            self.wf(),
            i < self.text().len(),
        ensures
            match r {
                Some((t, j)) => scan(self.text(), i as int) == Some((t@, j as int))
                    && i < j <= self.text().len(),
                None => scan(self.text(), i as int) is None,
            },
    {
        let c = self.chars[i];
        if c == '0' {
            let n1 = self.char_at(i, 1);
            match n1 {
                Some('x') => self.lex_number(i + 2, 16),
                Some('o') => self.lex_number(i + 2, 8),
                Some('b') => self.lex_number(i + 2, 2),
                Some(d) => {
                    if '0' <= d && d <= '9' {
                        self.lex_number(i + 1, 10)
                    } else if is_alphabetic(d) {
                        None
                    } else {
                        Some((Token::Int(0), i + 1))
                    }
                },
                None => Some((Token::Int(0), i + 1)),
            }
        } else if '0' <= c && c <= '9' {
            self.lex_number(i, 10)
        } else if c == '_' || is_alphabetic(c) {
            let (t, k) = self.lex_name(i);
            Some((t, k))
        } else if c == '"' {
            self.lex_string(i)
        } else if c == '\'' {
            self.lex_char(i)
        } else {
            let (t, k) = self.lex_operator(i);
            Some((t, k))
        }
    }

    /// Hands out the next token, or `None` once the text is used up or a
    /// malformed literal is met; after `None` it hands out nothing more.
    pub fn next_token(&mut self) -> (r: Option<Token<&'a str>>)
        requires
            old(self).wf(),
        ensures
            final(self).wf(),
            final(self).text() == old(self).text(),
            old(self).rest().len() == 0 ==> r is None && final(self).rest() == old(self).rest(),
            old(self).rest().len() > 0 ==> r is Some && r->0@ == old(self).rest()[0]
                && final(self).rest() == old(self).rest().drop_first(),
            final(self).clean() == old(self).clean(),
    {
        let ghost cs = self.text();
        let ghost p0 = self.pos as int;
        let mut k = self.pos;
        while k < self.chars.len() && is_whitespace(self.chars[k])
            invariant
                self.wf(),
                cs == self.text(),
                p0 <= k <= cs.len(),
                skip_whitespace(cs, p0) == skip_whitespace(cs, k as int),
            decreases cs.len() - k,
        {
            k = k + 1;
        }
        if k >= self.chars.len() {
            return None;
        }
        match self.scan(k) {
            Some((t, j)) => {
                proof {
                    assert(lex_seq(cs, j as int) == lex_seq(cs, p0).drop_first());
                }
                self.pos = j;
                Some(t)
            },
            None => None,
        }
    }

    /// Whether the tokens ran out at the end of the text rather than at a
    /// malformed literal; asked once no tokens are left.
    pub fn finished_cleanly(&self) -> (r: bool)
        requires
            self.wf(),
            self.rest().len() == 0,
        ensures
            r == self.clean(),
    {
        let ghost cs = self.text();
        let mut k = self.pos;
        while k < self.chars.len() && is_whitespace(self.chars[k])
            invariant
                self.wf(),
                cs == self.text(),
                self.pos <= k <= cs.len(),
                skip_whitespace(cs, self.pos as int) == skip_whitespace(cs, k as int),
            decreases cs.len() - k,
        {
            k = k + 1;
        }
        k >= self.chars.len()
    }

    /// Hands out all the tokens still to come.
    pub fn tokens(&mut self) -> (r: Vec<Token<&'a str>>)
        requires
            old(self).wf(),
        ensures
            final(self).wf(),
            r@.map_values(|t: Token<&'a str>| t@) == old(self).rest(),
            final(self).rest().len() == 0,
            final(self).clean() == old(self).clean(),
    {
        let mut v: Vec<Token<&'a str>> = Vec::new();
        loop
            invariant
                self.wf(),
                self.text() == old(self).text(),
                v@.map_values(|t: Token<&'a str>| t@) + self.rest() == old(self).rest(),
                self.clean() == old(self).clean(),
            ensures
                self.wf(),
                v@.map_values(|t: Token<&'a str>| t@) == old(self).rest(),
                self.rest().len() == 0,
                self.clean() == old(self).clean(),
            decreases self.rest().len(),
        {
            let ghost before = v@.map_values(|t: Token<&'a str>| t@);
            let ghost r0 = self.rest();
            match self.next_token() {
                Some(t) => {
                    v.push(t);
                    assert(v@.map_values(|t: Token<&'a str>| t@) =~= before.push(t@));
                    assert(before.push(t@) + r0.drop_first() =~= before + r0);
                },
                None => {
                    assert(before + self.rest() =~= before);
                    break;
                },
            }
        }
        v
    }

    /// The character `off` places after `i`, if there is one.
    fn char_at(&self, i: usize, off: usize) -> (r: Option<char>)
        requires
            self.wf(),
        ensures
            r == at(self.text(), i + off),
    {
        if off < self.chars.len() && i < self.chars.len() - off {
            Some(self.chars[i + off])
        } else {
            None
        }
    }

    /// An integer literal whose digits start at `start`.
    fn lex_number(&self, start: usize, radix: u32) -> (r: Option<(Token<&'a str>, usize)>)
        requires
            self.wf(),
            start <= self.text().len(),
            radix == 2 || radix == 8 || radix == 10 || radix == 16,
        ensures
            match r {
                Some((t, j)) => number(self.text(), start as int, radix) == Some((t@, j as int))
                    && start < j <= self.text().len(),
                None => number(self.text(), start as int, radix) is None,
            },
    {
        let ghost cs = self.text();
        let mut k = start;
        let mut v: i64 = 0;
        let mut over = false;
        while k < self.chars.len() && to_digit(self.chars[k], radix).is_some()
            invariant
                self.wf(),
                cs == self.text(),
                radix == 2 || radix == 8 || radix == 10 || radix == 16,
                start <= k <= cs.len(),
                digits_end(cs, start as int, radix) == digits_end(cs, k as int, radix),
                v >= 0,
                !over ==> v as int == digits_value(cs, start as int, k as int, radix),
                over ==> digits_value(cs, start as int, k as int, radix) > i64::MAX,
            decreases cs.len() - k,
        {
            let d = to_digit(self.chars[k], radix).unwrap();
            proof {
                lemma_digits_value_nonneg(cs, start as int, k as int, radix);
                lemma_accumulate(
                    digits_value(cs, start as int, k as int, radix),
                    radix as int,
                    d as int,
                    i64::MAX as int,
                );
                assert(digits_value(cs, start as int, k + 1, radix) == digits_value(
                    cs,
                    start as int,
                    k as int,
                    radix,
                ) * radix + d);
            }
            if !over {
                if v <= (i64::MAX - d as i64) / radix as i64 {
                    v = v * radix as i64 + d as i64;
                } else {
                    over = true;
                }
            }
            k = k + 1;
        }
        if k == start || over {
            return None;
        }
        if k < self.chars.len() && is_alphabetic(self.chars[k]) {
            return None;
        }
        Some((Token::Int(v), k))
    }

    /// A name that starts at `i`: an identifier or a keyword.
    fn lex_name(&self, i: usize) -> (r: (Token<&'a str>, usize))
        requires
            self.wf(),
            i < self.text().len(),
        ensures
            r.0@ == name_token(self.text().subrange(i as int, r.1 as int)),
            r.1 == name_end(self.text(), i as int),
            i < r.1 <= self.text().len(),
    {
        let ghost cs = self.text();
        let mut k = i + 1;
        while k < self.chars.len() && (is_alphanumeric(self.chars[k]) || self.chars[k] == '_')
            invariant
                self.wf(),
                cs == self.text(),
                i < k <= cs.len(),
                word_end(cs, i + 1) == word_end(cs, k as int),
            decreases cs.len() - k,
        {
            k = k + 1;
        }
        if k < self.chars.len() && (self.chars[k] == '?' || self.chars[k] == '!') {
            k = k + 1;
        }
        match keyword(&self.chars, i, k) {
            Some(t) => (t, k),
            None => (Token::Ident(self.input.substring_char(i, k)), k),
        }
    }

    /// A string literal whose opening quote is at `i`.
    fn lex_string(&self, i: usize) -> (r: Option<(Token<&'a str>, usize)>)
        requires
            self.wf(),
            i < self.text().len(),
        ensures
            match r {
                Some((t, j)) => string_close(self.text(), i + 1) == Some((j - 1) as int)
                    && t@ == Token::<Seq<char>>::Str(self.text().subrange(i + 1, j - 1))
                    && i + 1 < j <= self.text().len(),
                None => string_close(self.text(), i + 1) is None,
            },
    {
        let ghost cs = self.text();
        let mut j = i + 1;
        while j < self.chars.len()
            invariant
                self.wf(),
                cs == self.text(),
                i < j,
                string_close(cs, i + 1) == string_close(cs, j as int),
            decreases cs.len() - j,
        {
            if self.chars[j] == '"' {
                return Some((Token::Str(self.input.substring_char(i + 1, j)), j + 1));
            }
            if self.chars[j] == '\\' {
                if j + 1 < self.chars.len() {
                    j = j + 2;
                } else {
                    return None;
                }
            } else {
                j = j + 1;
            }
        }
        None
    }

    /// A character literal whose opening quote is at `i`.
    fn lex_char(&self, i: usize) -> (r: Option<(Token<&'a str>, usize)>)
        requires
            self.wf(),
            i < self.text().len(),
        ensures
            match r {
                Some((t, j)) => char_literal(self.text(), i as int) == Some((t@, j as int))
                    && i < j <= self.text().len(),
                None => char_literal(self.text(), i as int) is None,
            },
    {
        let c1 = self.char_at(i, 1);
        let c2 = self.char_at(i, 2);
        let c3 = self.char_at(i, 3);
        if c1 == Some('\\') {
            if let (Some(e), Some('\'')) = (c2, c3) {
                let esc = if e == 'n' {
                    Some('\n')
                } else if e == 't' {
                    Some('\t')
                } else if e == 'r' {
                    Some('\r')
                } else if e == '0' {
                    Some('\0')
                } else if e == '\\' || e == '\'' || e == '"' {
                    Some(e)
                } else {
                    None
                };
                match esc {
                    Some(c) => Some((Token::CharLit(c), i + 4)),
                    None => None,
                }
            } else {
                None
            }
        } else if let (Some(c), Some('\'')) = (c1, c2) {
            Some((Token::CharLit(c), i + 3))
        } else {
            None
        }
    }

    /// A bare operator at `i`, or its compound assignment when `=` follows.
    fn with_assign(&self, i: usize, bare: Token<&'a str>, assign: Token<&'a str>) -> (r: (
        Token<&'a str>,
        usize,
    ))
        requires
            self.wf(),
            i < self.text().len(),
        ensures
            (r.0@, r.1 as int) == with_assign(self.text(), i as int, bare@, assign@),
            i < r.1 <= self.text().len(),
    {
        if self.char_at(i, 1) == Some('=') {
            (assign, i + 2)
        } else {
            (bare, i + 1)
        }
    }

    /// The punctuation or operator at `i`.
    fn lex_operator(&self, i: usize) -> (r: (Token<&'a str>, usize))
        requires
            self.wf(),
            i < self.text().len(),
        ensures
            (r.0@, r.1 as int) == operator(self.text(), i as int),
            i < r.1 <= self.text().len(),
    {
        let c = self.chars[i];
        let n1 = self.char_at(i, 1);
        if c == ';' {
            (Token::Semicolon, i + 1)
        } else if c == ',' {
            (Token::Comma, i + 1)
        } else if c == ':' {
            (Token::Colon, i + 1)
        } else if c == '(' {
            (Token::OpenParen, i + 1)
        } else if c == ')' {
            (Token::CloseParen, i + 1)
        } else if c == '[' {
            (Token::OpenSquare, i + 1)
        } else if c == ']' {
            (Token::CloseSquare, i + 1)
        } else if c == '{' {
            (Token::OpenCurly, i + 1)
        } else if c == '}' {
            (Token::CloseCurly, i + 1)
        } else if c == '~' {
            (Token::Tilde, i + 1)
        } else if c == '-' {
            if n1 == Some('>') {
                (Token::Arrow, i + 2)
            } else {
                self.with_assign(i, Token::Minus, Token::MinusEquals)
            }
        } else if c == '&' {
            self.with_assign(i, Token::Ampersand, Token::AndEquals)
        } else if c == '=' {
            self.with_assign(i, Token::Equals, Token::EqualsEquals)
        } else if c == '!' {
            self.with_assign(i, Token::Char('!'), Token::BangEquals)
        } else if c == '+' {
            self.with_assign(i, Token::Plus, Token::PlusEquals)
        } else if c == '*' {
            self.with_assign(i, Token::Star, Token::StarEquals)
        } else if c == '/' {
            self.with_assign(i, Token::Slash, Token::SlashEquals)
        } else if c == '%' {
            self.with_assign(i, Token::Percent, Token::PercentEquals)
        } else if c == '^' {
            self.with_assign(i, Token::Carat, Token::CaratEquals)
        } else if c == '|' {
            self.with_assign(i, Token::Pipe, Token::PipeEquals)
        } else if c == '<' {
            if n1 == Some('=') {
                (Token::LessThanEquals, i + 2)
            } else if n1 == Some('<') {
                self.with_assign(i + 1, Token::LessThanLessThan, Token::LessThanLessThanEquals)
            } else {
                (Token::LessThan, i + 1)
            }
        } else if c == '>' {
            if n1 == Some('=') {
                (Token::GreaterThanEquals, i + 2)
            } else if n1 == Some('>') {
                self.with_assign(
                    i + 1,
                    Token::GreaterThanGreaterThan,
                    Token::GreaterThanGreaterThanEquals,
                )
            } else {
                (Token::GreaterThan, i + 1)
            }
        } else if c == '.' {
            if n1 == Some('.') {
                (Token::DotDot, i + 2)
            } else {
                (Token::Dot, i + 1)
            }
        } else {
            (Token::Char(c), i + 1)
        }
    }
}

} // verus!
