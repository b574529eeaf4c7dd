//! Properties of the tokenizer and parser as a whole, proved over their
//! specifications.
use vstd::prelude::*;
use crate::ast::{ExprV, Operator, TypeV};
use crate::chars::{ascii_digit, ascii_letter, ascii_whitespace, digit_value, letter, space};
use crate::grammar::{
    binary_op, binop, ident, next_is, p_exprs, p_items, p_names, p_paren, p_type, p_types,
    p_typed_names, peek, climb, p_binary, p_expr, p_postfix, p_primary, p_unary, parse_file, suffixes, top_level,
    unary_op, whole,
};
use crate::lexer::{
    at, next_tok, number, digits_end, digits_value, string_close, is_word_char, keyword_of, lex_clean, lex_seq, lexes_cleanly, name_end,
    name_token, scan, skip_whitespace, tokens_of, word_end,
};
use crate::parser::done;
use crate::token::{Tok, Token};

verus! {

/// Text of the form `[A-Za-z_][A-Za-z0-9_]*[?!]?`.
pub open spec fn identifier_text(s: Seq<char>) -> bool {
    let n = s.len() as int;
    let b = if n > 0 && (s[n - 1] == '?' || s[n - 1] == '!') {
        n - 1
    } else {
        n
    };
    &&& b >= 1
    &&& (ascii_letter(s[0]) || s[0] == '_')
    &&& forall|k: int| 0 <= k < b ==> ascii_letter(#[trigger] s[k]) || ascii_digit(s[k]) || s[k] == '_'
}

proof fn lemma_word_end(s: Seq<char>, i: int, b: int)
    requires
        0 <= i <= b <= s.len(),
        forall|k: int| i <= k < b ==> is_word_char(#[trigger] s[k]),
        b == s.len() || !is_word_char(s[b]),
    ensures
        word_end(s, i) == b,
    decreases b - i,
{
    if i < b {
        lemma_word_end(s, i + 1, b);
    }
}

proof fn lemma_digits_end(s: Seq<char>, i: int, b: int, radix: u32)
    requires
        0 <= i <= b <= s.len(),
        forall|k: int| i <= k < b ==> digit_value(#[trigger] s[k], radix) is Some,
        b == s.len() || digit_value(s[b], radix) is None,
    ensures
        digits_end(s, i, radix) == b,
    decreases b - i,
{
    if i < b {
        lemma_digits_end(s, i + 1, b, radix);
    }
}

/// The end of the token sequence: nothing follows position `n` of a text
/// of length `n`, and the text ended cleanly there.
proof fn lemma_at_end(cs: Seq<char>)
    ensures
        lex_seq(cs, cs.len() as int) == Seq::<Tok>::empty(),
        lex_clean(cs, cs.len() as int),
{
}

/// A text that scans as exactly one token `t` lexes to that token alone.
proof fn lemma_one_token(cs: Seq<char>, t: Tok)
    requires
        cs.len() > 0,
        skip_whitespace(cs, 0) == 0,
        scan(cs, 0) == Some((t, cs.len() as int)),
    ensures
        tokens_of(cs) == seq![t],
        lexes_cleanly(cs),
{
    lemma_at_end(cs);
    assert(seq![t] + Seq::<Tok>::empty() =~= seq![t]);
}

/// An input of one token that is a primary expression `e` is, as an
/// expression, `e` at every precedence level.
proof fn lemma_single_primary(ts: Seq<Tok>, ns: bool, e: ExprV, level: nat)
    requires
        ts.len() == 1,
        p_primary(ts, 0, ns) == Ok::<(ExprV, int), crate::error::Error>((e, 1)),
        ts[0] is Ident || ts[0] is Int || ts[0] is Str || ts[0] is CharLit,
    ensures
        p_binary(ts, 0, level, ns) == Ok::<(ExprV, int), crate::error::Error>((e, 1)),
    decreases level,
{
    if level > 0 {
        lemma_single_primary(ts, ns, e, (level - 1) as nat);
        assert(climb(ts, 1, level, ns, e) == Ok::<(ExprV, int), crate::error::Error>((e, 1)));
    } else {
        assert(suffixes(ts, 1, e) == Ok::<(ExprV, int), crate::error::Error>((e, 1)));
        assert(p_postfix(ts, 0, ns) == Ok::<(ExprV, int), crate::error::Error>((e, 1)));
        assert(unary_op(ts[0]) is None);
        assert(p_unary(ts, 0, ns) == Ok::<(ExprV, int), crate::error::Error>((e, 1)));
    }
}

/// Every text of the form `[A-Za-z_][A-Za-z0-9_]*[?!]?` is read as one
/// token spelled exactly by that text: an identifier holding the text, or
/// the keyword it spells. As an expression, a text that is not a keyword
/// is the identifier holding exactly that text.
pub proof fn law_identifier(s: Seq<char>)
    requires
        identifier_text(s),
    ensures
        tokens_of(s) == seq![name_token(s)],
        lexes_cleanly(s),
        keyword_of(s) is None ==> whole(tokens_of(s), lexes_cleanly(s), p_expr(tokens_of(s), 0, false))
            == done(ExprV::Ident(s)),
{
    let n = s.len() as int;
    let b = if n > 0 && (s[n - 1] == '?' || s[n - 1] == '!') {
        n - 1
    } else {
        n
    };
    lemma_word_end(s, 1, b);
    assert(name_end(s, 0) == n);
    assert(s.subrange(0, n) =~= s);
    lemma_one_token(s, name_token(s));
    if keyword_of(s) is None {
        let ts = tokens_of(s);
        lemma_single_primary(ts, false, ExprV::Ident(s), top_level());
    }
}

/// A text that the tokenizer rejects at its first character yields no
/// token, does not lex cleanly, and does not parse.
proof fn lemma_rejected_at_start(cs: Seq<char>)
    requires
        cs.len() > 0,
        !space(cs[0]),
        scan(cs, 0) is None,
    ensures
        tokens_of(cs) == Seq::<Tok>::empty(),
        !lexes_cleanly(cs),
        parse_file(tokens_of(cs), lexes_cleanly(cs)) is Err,
{
    assert(skip_whitespace(cs, 0) == 0);
}

/// A run of decimal digits directly followed by a letter is no token,
/// unless the run is a lone `0` and the letter a radix mark (`x`, `o`,
/// `b`): wherever the tokenizer meets such a run (after any text `pre`),
/// it stops there; and a text that starts with one does not parse.
pub proof fn law_malformed_number(pre: Seq<char>, d: Seq<char>, a: char, rest: Seq<char>)
    requires
        d.len() >= 1,
        forall|k: int| 0 <= k < d.len() ==> ascii_digit(#[trigger] d[k]),
        letter(a),
        !(d == seq!['0'] && (a == 'x' || a == 'o' || a == 'b')),
    ensures
        scan(pre + (d + seq![a] + rest), pre.len() as int) is None,
        tokens_of(d + seq![a] + rest) == Seq::<Tok>::empty(),
        !lexes_cleanly(d + seq![a] + rest),
        parse_file(tokens_of(d + seq![a] + rest), lexes_cleanly(d + seq![a] + rest)) is Err,
{
    let cs = d + seq![a] + rest;
    let n = d.len() as int;
    assert(cs[n] == a);
    assert forall|k: int| 0 <= k < n implies cs[k] == d[k] by {}
    assert(digit_value(a, 10) is None);
    if n > 1 || d[0] != '0' {
        let start = if d[0] == '0' {
            1int
        } else {
            0int
        };
        lemma_digits_end(cs, start, n, 10);
    } else {
        assert(d =~= seq!['0']);
        assert(!ascii_digit(a));
    }
    assert(scan(cs, 0) is None);
    lemma_rejected_at_start(cs);
    lemma_scan_shift(pre, cs, 0);
}

/// `0x`, `0o` or `0b`, digits of that base, then a letter that is no digit
/// of that base, is no token: wherever the tokenizer meets it (after any
/// text `pre`), it stops there; and a text that starts with it does not
/// parse.
pub proof fn law_malformed_radix_number(
    pre: Seq<char>,
    mark: char,
    e: Seq<char>,
    a: char,
    rest: Seq<char>,
)
    requires
        mark == 'x' || mark == 'o' || mark == 'b',
        digits_in(e, radix_of(mark)),
        letter(a),
        digit_value(a, radix_of(mark)) is None,
    ensures
        scan(pre + (seq!['0', mark] + e + seq![a] + rest), pre.len() as int) is None,
        tokens_of(seq!['0', mark] + e + seq![a] + rest) == Seq::<Tok>::empty(),
        !lexes_cleanly(seq!['0', mark] + e + seq![a] + rest),
        parse_file(
            tokens_of(seq!['0', mark] + e + seq![a] + rest),
            lexes_cleanly(seq!['0', mark] + e + seq![a] + rest),
        ) is Err,
{
    let cs = seq!['0', mark] + e + seq![a] + rest;
    let r = radix_of(mark);
    let n = 2 + e.len() as int;
    assert(cs[0] == '0' && cs[1] == mark);
    assert(cs[n] == a);
    assert forall|k: int| 2 <= k < n implies digit_value(#[trigger] cs[k], r) is Some by {
        assert(cs[k] == e[k - 2]);
    }
    lemma_digits_end(cs, 2, n, r);
    assert(scan(cs, 0) is None);
    lemma_rejected_at_start(cs);
    lemma_scan_shift(pre, cs, 0);
}

/// `d` is a nonempty run of base-`radix` digits.
pub open spec fn digits_in(d: Seq<char>, radix: u32) -> bool {
    &&& d.len() >= 1
    &&& forall|k: int| 0 <= k < d.len() ==> digit_value(#[trigger] d[k], radix) is Some
}

/// The number that the base-`radix` digits `d` denote.
pub open spec fn value_of(d: Seq<char>, radix: u32) -> int {
    digits_value(d, 0, d.len() as int, radix)
}

/// The base that a radix mark after `0` selects.
pub open spec fn radix_of(mark: char) -> u32 {
    if mark == 'x' {
        16
    } else if mark == 'o' {
        8
    } else {
        2
    }
}

proof fn lemma_digits_value_shift(p: Seq<char>, d: Seq<char>, k: int, radix: u32)
    requires
        0 <= k <= d.len(),
    ensures
        digits_value(p + d, p.len() as int, p.len() + k, radix) == digits_value(d, 0, k, radix),
    decreases k,
{
    if k > 0 {
        lemma_digits_value_shift(p, d, k - 1, radix);
        assert((p + d)[p.len() + k - 1] == d[k - 1]);
    }
}

proof fn lemma_string_close(cs: Seq<char>, j: int, close: int)
    requires
        0 <= j <= close < cs.len(),
        cs[close] == '"',
        forall|k: int| j <= k < close ==> #[trigger] cs[k] != '"' && cs[k] != '\\',
    ensures
        string_close(cs, j) == Some(close),
    decreases close - j,
{
    if j < close {
        lemma_string_close(cs, j + 1, close);
    }
}

/// A decimal literal without leading zeros (or a lone `0`) whose value
/// fits in `i64` reads as exactly that integer, as a token and as an
/// expression.
pub proof fn law_decimal_literal(d: Seq<char>)
    requires
        digits_in(d, 10),
        d[0] != '0' || d.len() == 1,
        value_of(d, 10) <= i64::MAX,
    ensures
        tokens_of(d) == seq![Token::<Seq<char>>::Int(value_of(d, 10) as i64)],
        lexes_cleanly(d),
        whole(tokens_of(d), lexes_cleanly(d), p_expr(tokens_of(d), 0, false)) == done(
            ExprV::Int(value_of(d, 10) as i64),
        ),
{
    let n = d.len() as int;
    let v = value_of(d, 10);
    if d[0] == '0' {
        assert(digits_value(d, 0, 0, 10) == 0);
        assert(v == 0);
    } else {
        lemma_digits_end(d, 0, n, 10);
    }
    assert(scan(d, 0) == Some((Token::<Seq<char>>::Int(v as i64), n)));
    lemma_one_token(d, Token::Int(v as i64));
    lemma_single_primary(tokens_of(d), false, ExprV::Int(v as i64), top_level());
}

/// `0x`, `0o` or `0b` followed by digits of base 16, 8 or 2 whose value
/// fits in `i64` reads as exactly that integer, as a token and as an
/// expression.
pub proof fn law_radix_literal(mark: char, d: Seq<char>)
    requires
        mark == 'x' || mark == 'o' || mark == 'b',
        digits_in(d, radix_of(mark)),
        value_of(d, radix_of(mark)) <= i64::MAX,
    ensures
        tokens_of(seq!['0', mark] + d) == seq![Token::<Seq<char>>::Int(value_of(d, radix_of(mark)) as i64)],
        lexes_cleanly(seq!['0', mark] + d),
        whole(
            tokens_of(seq!['0', mark] + d),
            lexes_cleanly(seq!['0', mark] + d),
            p_expr(tokens_of(seq!['0', mark] + d), 0, false),
        ) == done(ExprV::Int(value_of(d, radix_of(mark)) as i64)),
{
    let p = seq!['0', mark];
    let cs = p + d;
    let r = radix_of(mark);
    let v = value_of(d, r);
    let n = cs.len() as int;
    assert forall|k: int| 2 <= k < n implies digit_value(#[trigger] cs[k], r) is Some by {
        assert(cs[k] == d[k - 2]);
    }
    lemma_digits_end(cs, 2, n, r);
    lemma_digits_value_shift(p, d, d.len() as int, r);
    assert(cs[0] == '0' && cs[1] == mark);
    assert(scan(cs, 0) == Some((Token::<Seq<char>>::Int(v as i64), n)));
    lemma_one_token(cs, Token::Int(v as i64));
    lemma_single_primary(tokens_of(cs), false, ExprV::Int(v as i64), top_level());
}

/// Any character but a backslash between single quotes reads as exactly
/// that character literal, as a token and as an expression.
pub proof fn law_char_literal(c: char)
    requires
        c != '\\',
    ensures
        tokens_of(seq!['\'', c, '\'']) == seq![Token::<Seq<char>>::CharLit(c)],
        lexes_cleanly(seq!['\'', c, '\'']),
        whole(
            tokens_of(seq!['\'', c, '\'']),
            lexes_cleanly(seq!['\'', c, '\'']),
            p_expr(tokens_of(seq!['\'', c, '\'']), 0, false),
        ) == done(ExprV::Char(c)),
{
    let cs = seq!['\'', c, '\''];
    assert(scan(cs, 0) == Some((Token::<Seq<char>>::CharLit(c), 3int)));
    lemma_one_token(cs, Token::CharLit(c));
    lemma_single_primary(tokens_of(cs), false, ExprV::Char(c), top_level());
}

/// Text without double quotes or backslashes, between double quotes,
/// reads as a string literal holding exactly that text, as a token and as
/// an expression.
pub proof fn law_string_literal(s: Seq<char>)
    requires
        forall|k: int| 0 <= k < s.len() ==> #[trigger] s[k] != '"' && s[k] != '\\',
    ensures
        tokens_of(seq!['"'] + s + seq!['"']) == seq![Token::<Seq<char>>::Str(s)],
        lexes_cleanly(seq!['"'] + s + seq!['"']),
        whole(
            tokens_of(seq!['"'] + s + seq!['"']),
            lexes_cleanly(seq!['"'] + s + seq!['"']),
            p_expr(tokens_of(seq!['"'] + s + seq!['"']), 0, false),
        ) == done(ExprV::String(s)),
{
    let cs = seq!['"'] + s + seq!['"'];
    let n = cs.len() as int;
    assert forall|k: int| 1 <= k < n - 1 implies #[trigger] cs[k] != '"' && cs[k] != '\\' by {
        assert(cs[k] == s[k - 1]);
    }
    lemma_string_close(cs, 1, n - 1);
    assert(cs.subrange(1, n - 1) =~= s);
    assert(scan(cs, 0) == Some((Token::<Seq<char>>::Str(s), n)));
    lemma_one_token(cs, Token::Str(s));
    lemma_single_primary(tokens_of(cs), false, ExprV::String(s), top_level());
}

/// The token found at `i` of `cs`, and the position after it, moved `d`
/// places on.
pub open spec fn shifted(r: Option<(Tok, int)>, d: int) -> Option<(Tok, int)> {
    match r {
        Some((t, j)) => Some((t, j + d)),
        None => None,
    }
}

proof fn lemma_skip_whitespace_shift(p: Seq<char>, cs: Seq<char>, i: int)
    requires
        0 <= i,
    ensures
        skip_whitespace(p + cs, p.len() + i) == p.len() + skip_whitespace(cs, i),
    decreases cs.len() - i,
{
    if i < cs.len() {
        assert((p + cs)[p.len() + i] == cs[i]);
        lemma_skip_whitespace_shift(p, cs, i + 1);
    }
}

proof fn lemma_digits_end_shift(p: Seq<char>, cs: Seq<char>, i: int, radix: u32)
    requires
        0 <= i,
    ensures
        digits_end(p + cs, p.len() + i, radix) == p.len() + digits_end(cs, i, radix),
    decreases cs.len() - i,
{
    if i < cs.len() {
        assert((p + cs)[p.len() + i] == cs[i]);
        lemma_digits_end_shift(p, cs, i + 1, radix);
    }
}

proof fn lemma_digits_value_at_shift(p: Seq<char>, cs: Seq<char>, i: int, k: int, radix: u32)
    requires
        0 <= i,
        k <= cs.len(),
    ensures
        digits_value(p + cs, p.len() + i, p.len() + k, radix) == digits_value(cs, i, k, radix),
    decreases k - i,
{
    if k > i {
        assert((p + cs)[p.len() + k - 1] == cs[k - 1]);
        lemma_digits_value_at_shift(p, cs, i, k - 1, radix);
    }
}

proof fn lemma_word_end_shift(p: Seq<char>, cs: Seq<char>, i: int)
    requires
        0 <= i,
    ensures
        word_end(p + cs, p.len() + i) == p.len() + word_end(cs, i),
    decreases cs.len() - i,
{
    if i < cs.len() {
        assert((p + cs)[p.len() + i] == cs[i]);
        lemma_word_end_shift(p, cs, i + 1);
    }
}

proof fn lemma_string_close_shift(p: Seq<char>, cs: Seq<char>, j: int)
    requires
        0 <= j,
    ensures
        string_close(p + cs, p.len() + j) == (match string_close(cs, j) {
            Some(k) => Some(k + p.len()),
            None => None::<int>,
        }),
    decreases cs.len() - j,
{
    if j < cs.len() {
        assert((p + cs)[p.len() + j] == cs[j]);
        if cs[j] == '\\' && j + 1 < cs.len() {
            lemma_string_close_shift(p, cs, j + 2);
        } else if cs[j] != '"' && cs[j] != '\\' {
            lemma_string_close_shift(p, cs, j + 1);
        }
    }
}

proof fn lemma_number_shift(p: Seq<char>, cs: Seq<char>, i: int, radix: u32)
    requires
        0 <= i <= cs.len(),
    ensures
        number(p + cs, p.len() + i, radix) == shifted(number(cs, i, radix), p.len() as int),
{
    let q = p + cs;
    lemma_digits_end_shift(p, cs, i, radix);
    let k = digits_end(cs, i, radix);
    lemma_digits_end_facts(cs, i, radix);
    lemma_digits_value_at_shift(p, cs, i, k, radix);
    if k < cs.len() {
        assert(q[p.len() + k] == cs[k]);
    }
}

proof fn lemma_digits_end_facts(cs: Seq<char>, i: int, radix: u32)
    requires
        0 <= i,
    ensures
        i <= digits_end(cs, i, radix),
        i <= cs.len() ==> digits_end(cs, i, radix) <= cs.len(),
    decreases cs.len() - i,
{
    if 0 <= i < cs.len() && digit_value(cs[i], radix) is Some {
        lemma_digits_end_facts(cs, i + 1, radix);
    }
}

proof fn lemma_word_end_facts(cs: Seq<char>, i: int)
    requires
        0 <= i,
    ensures
        i <= word_end(cs, i),
        i <= cs.len() ==> word_end(cs, i) <= cs.len(),
    decreases cs.len() - i,
{
    if 0 <= i < cs.len() && is_word_char(cs[i]) {
        lemma_word_end_facts(cs, i + 1);
    }
}

proof fn lemma_string_close_facts(cs: Seq<char>, j: int)
    requires
        0 <= j,
    ensures
        string_close(cs, j) matches Some(k) ==> j <= k < cs.len(),
    decreases cs.len() - j,
{
    if 0 <= j < cs.len() && cs[j] != '"' {
        if cs[j] == '\\' {
            if j + 1 < cs.len() {
                lemma_string_close_facts(cs, j + 2);
            }
        } else {
            lemma_string_close_facts(cs, j + 1);
        }
    }
}

/// A token always lies within the text and moves the position forward.
proof fn lemma_scan_advances(cs: Seq<char>, i: int)
    requires
        0 <= i,
    ensures
        scan(cs, i) matches Some((t, j)) ==> i < j <= cs.len(),
{
    if i < cs.len() {
        lemma_digits_end_facts(cs, i, 10);
        lemma_digits_end_facts(cs, i + 1, 10);
        lemma_digits_end_facts(cs, i + 2, 16);
        lemma_digits_end_facts(cs, i + 2, 8);
        lemma_digits_end_facts(cs, i + 2, 2);
        lemma_word_end_facts(cs, i + 1);
        lemma_string_close_facts(cs, i + 1);
    }
}

proof fn lemma_scan_shift(p: Seq<char>, cs: Seq<char>, i: int)
    requires
        0 <= i,
    ensures
        scan(p + cs, p.len() + i) == shifted(scan(cs, i), p.len() as int),
{
    let q = p + cs;
    let m = p.len() as int;
    if i < cs.len() {
        assert(q[m + i] == cs[i]);
        assert(at(q, m + i + 1) == at(cs, i + 1));
        assert(at(q, m + i + 2) == at(cs, i + 2));
        assert(at(q, m + i + 3) == at(cs, i + 3));
        lemma_number_shift(p, cs, i, 10);
        if i + 1 <= cs.len() {
            lemma_number_shift(p, cs, i + 1, 10);
        }
        if i + 2 <= cs.len() {
            lemma_number_shift(p, cs, i + 2, 16);
            lemma_number_shift(p, cs, i + 2, 8);
            lemma_number_shift(p, cs, i + 2, 2);
        }
        lemma_word_end_shift(p, cs, i + 1);
        lemma_word_end_facts(cs, i + 1);
        let k = word_end(cs, i + 1);
        assert(at(q, m + k) == at(cs, k));
        let e = name_end(cs, i);
        assert(q.subrange(m + i, m + e) =~= cs.subrange(i, e));
        lemma_string_close_shift(p, cs, i + 1);
        lemma_string_close_facts(cs, i + 1);
        match string_close(cs, i + 1) {
            Some(c) => {
                assert(q.subrange(m + i + 1, m + c) =~= cs.subrange(i + 1, c));
            },
            None => {},
        }
    }
}

proof fn lemma_lex_shift(p: Seq<char>, cs: Seq<char>, i: int)
    requires
        0 <= i <= cs.len(),
    ensures
        lex_seq(p + cs, p.len() + i) == lex_seq(cs, i),
        lex_clean(p + cs, p.len() + i) == lex_clean(cs, i),
    decreases cs.len() - i,
{
    let m = p.len() as int;
    lemma_skip_whitespace_shift(p, cs, i);
    let k = skip_whitespace(cs, i);
    lemma_skip_whitespace_facts(cs, i);
    lemma_scan_shift(p, cs, k);
    lemma_scan_advances(cs, k);
    match scan(cs, k) {
        Some((t, j)) => {
            lemma_lex_shift(p, cs, j);
        },
        None => {},
    }
}

proof fn lemma_skip_whitespace_facts(cs: Seq<char>, i: int)
    requires
        0 <= i,
    ensures
        i <= skip_whitespace(cs, i),
        i <= cs.len() ==> skip_whitespace(cs, i) <= cs.len(),
    decreases cs.len() - i,
{
    if 0 <= i < cs.len() && space(cs[i]) {
        lemma_skip_whitespace_facts(cs, i + 1);
    }
}

/// Whitespace before the first token changes neither the tokens nor
/// whether they run to the end of the text, so it changes no parse.
pub proof fn law_leading_whitespace(w: Seq<char>, cs: Seq<char>)
    requires
        forall|k: int| 0 <= k < w.len() ==> space(#[trigger] w[k]),
    ensures
        tokens_of(w + cs) == tokens_of(cs),
        lexes_cleanly(w + cs) == lexes_cleanly(cs),
        parse_file(tokens_of(w + cs), lexes_cleanly(w + cs)) == parse_file(tokens_of(cs), lexes_cleanly(cs)),
{
    lemma_lex_shift(w, cs, 0);
    lemma_skip_prefix(w, cs, 0);
    let q = w + cs;
    let m = w.len() as int;
    lemma_skip_whitespace_facts(q, m);
    let k = skip_whitespace(q, m);
    lemma_scan_advances(q, k);
}

/// Skipping whitespace from inside a whitespace prefix reaches the point
/// reached from its end.
proof fn lemma_skip_prefix(w: Seq<char>, cs: Seq<char>, i: int)
    requires
        0 <= i <= w.len(),
        forall|k: int| 0 <= k < w.len() ==> space(#[trigger] w[k]),
    ensures
        skip_whitespace(w + cs, i) == skip_whitespace(w + cs, w.len() as int),
    decreases w.len() - i,
{
    if i < w.len() {
        assert((w + cs)[i] == w[i]);
        lemma_skip_prefix(w, cs, i + 1);
    }
}

/// Lexing from position `i` passes through position `j`: `j` is where a
/// token ends (or `i` itself).
pub open spec fn reaches(cs: Seq<char>, i: int, j: int) -> bool
    decreases cs.len() - i,
{
    if i == j {
        true
    } else if 0 <= i <= cs.len() {
        match next_tok(cs, i) {
            Some((t, k)) => if i < k <= cs.len() && k <= j {
                reaches(cs, k, j)
            } else {
                false
            },
            None => false,
        }
    } else {
        false
    }
}

/// What `y` holds at `k` ends a token just as what `x` holds there does:
/// the same character (or the end of both), or ASCII whitespace.
pub open spec fn same_stop(x: Seq<char>, y: Seq<char>, k: int) -> bool {
    at(y, k) == at(x, k) || (0 <= k < y.len() && ascii_whitespace(y[k]))
}

proof fn lemma_digits_end_agree(x: Seq<char>, y: Seq<char>, i: int, k: int, radix: u32)
    requires
        0 <= i <= k <= y.len(),
        k <= x.len(),
        radix <= 36,
        digits_end(x, i, radix) == k,
        forall|j: int| i <= j < k ==> x[j] == y[j],
        same_stop(x, y, k),
    ensures
        digits_end(y, i, radix) == k,
    decreases k - i,
{
    lemma_digits_end_facts(x, i + 1, radix);
    if i < k {
        lemma_digits_end_agree(x, y, i + 1, k, radix);
    }
}

proof fn lemma_word_end_agree(x: Seq<char>, y: Seq<char>, i: int, k: int)
    requires
        0 <= i <= k <= y.len(),
        k <= x.len(),
        word_end(x, i) == k,
        forall|j: int| i <= j < k ==> x[j] == y[j],
        same_stop(x, y, k),
    ensures
        word_end(y, i) == k,
    decreases k - i,
{
    lemma_word_end_facts(x, i + 1);
    if i < k {
        lemma_word_end_agree(x, y, i + 1, k);
    }
}

proof fn lemma_digits_value_agree(x: Seq<char>, y: Seq<char>, i: int, k: int, radix: u32)
    requires
        0 <= i <= k,
        forall|j: int| i <= j < k ==> x[j] == y[j],
    ensures
        digits_value(y, i, k, radix) == digits_value(x, i, k, radix),
    decreases k - i,
{
    if i < k {
        lemma_digits_value_agree(x, y, i, k - 1, radix);
    }
}

proof fn lemma_string_close_agree(x: Seq<char>, y: Seq<char>, j: int, c: int)
    requires
        0 <= j,
        c < y.len(),
        c < x.len(),
        string_close(x, j) == Some(c),
        forall|m: int| j <= m <= c ==> x[m] == y[m],
    ensures
        string_close(y, j) == Some(c),
    decreases c - j,
{
    lemma_string_close_facts(x, j);
    lemma_string_close_facts(x, j + 1);
    lemma_string_close_facts(x, j + 2);
    if j < c {
        if x[j] == '\\' {
            lemma_string_close_facts(x, j + 2);
            lemma_string_close_agree(x, y, j + 2, c);
        } else {
            lemma_string_close_agree(x, y, j + 1, c);
        }
    }
}

proof fn lemma_number_agree(x: Seq<char>, y: Seq<char>, i: int, radix: u32, t: Tok, k: int)
    requires
        0 <= i <= k <= y.len(),
        k <= x.len(),
        radix <= 36,
        number(x, i, radix) == Some((t, k)),
        forall|j: int| i <= j < k ==> x[j] == y[j],
        same_stop(x, y, k),
    ensures
        number(y, i, radix) == Some((t, k)),
{
    lemma_digits_end_agree(x, y, i, k, radix);
    lemma_digits_value_agree(x, y, i, k, radix);
}

/// A token is found the same in another text that agrees with the first
/// up to the token's end and stops it there too.
proof fn lemma_scan_agree(x: Seq<char>, y: Seq<char>, s: int, t: Tok, k: int)
    requires
        0 <= s,
        k <= y.len(),
        scan(x, s) == Some((t, k)),
        forall|j: int| s <= j < k ==> x[j] == y[j],
        same_stop(x, y, k),
    ensures
        scan(y, s) == Some((t, k)),
{
    lemma_scan_advances(x, s);
    let c = x[s];
    assert(y[s] == c);
    assert(at(y, s + 1) == at(x, s + 1) || s + 1 == k);
    assert(at(y, s + 2) == at(x, s + 2) || s + 2 >= k);
    assert(at(y, s + 3) == at(x, s + 3) || s + 3 >= k);
    if c == '0' {
        let n1 = at(x, s + 1);
        if n1 == Some('x') {
            lemma_number_agree(x, y, s + 2, 16, t, k);
        } else if n1 == Some('o') {
            lemma_number_agree(x, y, s + 2, 8, t, k);
        } else if n1 == Some('b') {
            lemma_number_agree(x, y, s + 2, 2, t, k);
        } else if n1 is Some && ascii_digit(n1->0) {
            lemma_number_agree(x, y, s + 1, 10, t, k);
        }
    } else if ascii_digit(c) {
        lemma_number_agree(x, y, s, 10, t, k);
    } else if letter(c) || c == '_' {
        lemma_word_end_facts(x, s + 1);
        let w = word_end(x, s + 1);
        if w == k {
            lemma_word_end_agree(x, y, s + 1, k);
        } else {
            assert(w + 1 == k);
            assert(y[w] == x[w]);
            lemma_word_end_agree(x, y, s + 1, w);
        }
        assert(y.subrange(s, k) =~= x.subrange(s, k));
    } else if c == '"' {
        lemma_string_close_facts(x, s + 1);
        let close = string_close(x, s + 1)->0;
        lemma_string_close_agree(x, y, s + 1, close);
        assert(y.subrange(s + 1, close) =~= x.subrange(s + 1, close));
    }
}

proof fn lemma_skip_agree(x: Seq<char>, y: Seq<char>, i: int, m: int)
    requires
        0 <= i <= m,
        m <= x.len(),
        m <= y.len(),
        forall|j: int| 0 <= j < m ==> x[j] == y[j],
        skip_whitespace(x, i) < m,
    ensures
        skip_whitespace(y, i) == skip_whitespace(x, i),
    decreases m - i,
{
    lemma_skip_whitespace_facts(x, i);
    if i < m && space(x[i]) {
        lemma_skip_agree(x, y, i + 1, m);
    }
}

/// Lexing from two positions that skip to the same place gives the same.
proof fn lemma_lex_from_skip(cs: Seq<char>, i: int, i2: int)
    requires
        0 <= i <= i2 <= cs.len(),
        skip_whitespace(cs, i) == skip_whitespace(cs, i2),
    ensures
        lex_seq(cs, i) == lex_seq(cs, i2),
        lex_clean(cs, i) == lex_clean(cs, i2),
{
    lemma_skip_whitespace_facts(cs, i2);
    lemma_scan_advances(cs, skip_whitespace(cs, i2));
}

proof fn lemma_skip_run(cs: Seq<char>, i: int, e: int)
    requires
        0 <= i <= e <= cs.len(),
        forall|j: int| i <= j < e ==> space(#[trigger] cs[j]),
    ensures
        skip_whitespace(cs, i) == skip_whitespace(cs, e),
    decreases e - i,
{
    if i < e {
        lemma_skip_run(cs, i + 1, e);
    }
}

proof fn lemma_insert_chain(a: Seq<char>, w: Seq<char>, b: Seq<char>, i: int)
    requires
        0 <= i <= a.len(),
        reaches(a + b, i, a.len() as int),
        forall|k: int| 0 <= k < w.len() ==> ascii_whitespace(#[trigger] w[k]),
    ensures
        lex_seq(a + w + b, i) == lex_seq(a + b, i),
        lex_clean(a + w + b, i) == lex_clean(a + b, i),
    decreases a.len() - i,
{
    let x = a + b;
    let y = a + w + b;
    let m = a.len() as int;
    let n = w.len() as int;
    assert forall|j: int| 0 <= j < m implies x[j] == y[j] by {}
    if i == m {
        lemma_lex_shift(a, b, 0);
        assert(y =~= (a + w) + b);
        lemma_lex_shift(a + w, b, 0);
        assert forall|j: int| m <= j < m + n implies space(#[trigger] y[j]) by {
            assert(y[j] == w[j - m]);
        }
        lemma_skip_run(y, m, m + n);
        lemma_lex_from_skip(y, m, m + n);
    } else {
        let sx = skip_whitespace(x, i);
        let (t, k) = next_tok(x, i)->0;
        lemma_scan_advances(x, sx);
        lemma_skip_whitespace_facts(x, i);
        lemma_skip_agree(x, y, i, m);
        assert forall|j: int| sx <= j < k implies x[j] == y[j] by {}
        if k < m {
            assert(at(y, k) == at(x, k));
        } else if n > 0 {
            assert(y[k] == w[0]);
        } else {
            assert(y =~= x);
        }
        lemma_scan_agree(x, y, sx, t, k);
        lemma_insert_chain(a, w, b, k);
    }
}

/// Inserting ASCII whitespace where one token ends and the next begins
/// (position `a.len()` of `a + b`, reached by lexing from the start)
/// changes neither the tokens nor whether they run to the end of the text,
/// so it changes no parse.
pub proof fn law_whitespace_between_tokens(a: Seq<char>, w: Seq<char>, b: Seq<char>)
    requires
        reaches(a + b, 0, a.len() as int),
        forall|k: int| 0 <= k < w.len() ==> ascii_whitespace(#[trigger] w[k]),
    ensures
        tokens_of(a + w + b) == tokens_of(a + b),
        lexes_cleanly(a + w + b) == lexes_cleanly(a + b),
        parse_file(tokens_of(a + w + b), lexes_cleanly(a + w + b)) == parse_file(
            tokens_of(a + b),
            lexes_cleanly(a + b),
        ),
{
    lemma_insert_chain(a, w, b, 0);
}

/// Agreement of two token sequences on the positions `[from, to)`.
pub open spec fn tokens_agree(ts: Seq<Tok>, us: Seq<Tok>, from: int, to: int) -> bool {
    &&& 0 <= from
    &&& to <= ts.len()
    &&& to <= us.len()
    &&& forall|j: int| from <= j < to ==> #[trigger] us[j] == ts[j]
}

/// A type read from `k` ends past `k` and within the sequence.
proof fn lemma_type_bounds(ts: Seq<Tok>, k: int)
    requires
        0 <= k,
        p_type(ts, k) is Ok,
    ensures
        k < p_type(ts, k)->Ok_0.1 <= ts.len(),
    decreases ts.len() - k, 4nat,
{
    match peek(ts, k) {
        Some(Token::Ampersand) => {
            lemma_type_bounds(ts, k + 1);
        },
        Some(Token::OpenSquare) => {
            lemma_type_bounds(ts, k + 1);
        },
        Some(Token::OpenParen) => {
            if !next_is(ts, k + 1, Token::CloseParen) {
                lemma_types_bounds(ts, k + 1, Seq::empty());
            }
        },
        _ => {},
    }
}

proof fn lemma_types_bounds(ts: Seq<Tok>, k: int, acc: Seq<TypeV>)
    requires
        0 <= k,
        p_types(ts, k, acc) is Ok,
    ensures
        k < p_types(ts, k, acc)->Ok_0.1 <= ts.len(),
    decreases ts.len() - k, 5nat,
{
    if !next_is(ts, k, Token::CloseParen) {
        lemma_type_bounds(ts, k);
        let (t, j) = p_type(ts, k)->Ok_0;
        if next_is(ts, j, Token::Comma) {
            lemma_types_bounds(ts, j + 1, acc.push(t));
        }
    }
}

/// A type reads no token beyond its end: another sequence that agrees on
/// the tokens it used reads the same type.
proof fn lemma_type_local(ts: Seq<Tok>, us: Seq<Tok>, k: int)
    requires
        0 <= k,
        p_type(ts, k) is Ok,
        tokens_agree(ts, us, k, p_type(ts, k)->Ok_0.1),
    ensures
        p_type(us, k) == p_type(ts, k),
    decreases ts.len() - k, 4nat,
{
    lemma_type_bounds(ts, k);
    assert(us[k] == ts[k]);
    match peek(ts, k) {
        Some(Token::Ampersand) => {
            lemma_type_local(ts, us, k + 1);
        },
        Some(Token::OpenSquare) => {
            lemma_type_bounds(ts, k + 1);
            lemma_type_local(ts, us, k + 1);
            let m = p_type(ts, k + 1)->Ok_0.1;
            assert(us[m] == ts[m]);
        },
        Some(Token::OpenParen) => {
            if !next_is(ts, k + 1, Token::CloseParen) {
                lemma_types_bounds(ts, k + 1, Seq::empty());
                assert(us[k + 1] == ts[k + 1]);
                lemma_types_local(ts, us, k + 1, Seq::empty());
            } else {
                assert(us[k + 1] == ts[k + 1]);
            }
        },
        _ => {},
    }
}

proof fn lemma_types_local(ts: Seq<Tok>, us: Seq<Tok>, k: int, acc: Seq<TypeV>)
    requires
        0 <= k,
        p_types(ts, k, acc) is Ok,
        tokens_agree(ts, us, k, p_types(ts, k, acc)->Ok_0.1),
    ensures
        p_types(us, k, acc) == p_types(ts, k, acc),
    decreases ts.len() - k, 5nat,
{
    lemma_types_bounds(ts, k, acc);
    assert(us[k] == ts[k]);
    if !next_is(ts, k, Token::CloseParen) {
        lemma_type_bounds(ts, k);
        let (t, j) = p_type(ts, k)->Ok_0;
        if next_is(ts, j, Token::Comma) {
            lemma_types_bounds(ts, j + 1, acc.push(t));
        }
        assert(us[j] == ts[j]);
        lemma_type_local(ts, us, k);
        if next_is(ts, j, Token::Comma) {
            lemma_types_local(ts, us, j + 1, acc.push(t));
        }
    }
}

proof fn lemma_typed_names_bounds(ts: Seq<Tok>, i: int, closer: Tok, acc: Seq<(Seq<char>, TypeV)>)
    requires
        0 <= i,
        p_typed_names(ts, i, closer, acc) is Ok,
    ensures
        i < p_typed_names(ts, i, closer, acc)->Ok_0.1 <= ts.len(),
        p_typed_names(ts, i, closer, acc)->Ok_0.0.len() >= acc.len(),
        !next_is(ts, i, closer) ==> i + 3 < p_typed_names(ts, i, closer, acc)->Ok_0.1
            && p_typed_names(ts, i, closer, acc)->Ok_0.0.len() > acc.len(),
    decreases ts.len() - i,
{
    if !next_is(ts, i, closer) {
        let (n, j) = ident(ts, i)->Ok_0;
        lemma_type_bounds(ts, j + 1);
        let (t, m) = p_type(ts, j + 1)->Ok_0;
        if next_is(ts, m, Token::Comma) {
            lemma_typed_names_bounds(ts, m + 1, closer, acc.push((n, t)));
        }
    }
}

/// The same member list, with `, ` inserted before its closing token.
proof fn lemma_typed_names_comma(
    ts: Seq<Tok>,
    i: int,
    closer: Tok,
    acc: Seq<(Seq<char>, TypeV)>,
    v: Seq<(Seq<char>, TypeV)>,
    e: int,
)
    requires
        0 <= i,
        closer == Token::<Seq<char>>::CloseParen || closer == Token::<Seq<char>>::CloseCurly,
        p_typed_names(ts, i, closer, acc) == Ok::<(Seq<(Seq<char>, TypeV)>, int), crate::error::Error>((v, e)),
        v.len() > acc.len(),
        i + 1 < e,
        ts[e - 2] != Token::<Seq<char>>::Comma,
    ensures
        p_typed_names(ts.insert(e - 1, Token::Comma), i, closer, acc) == Ok::<
            (Seq<(Seq<char>, TypeV)>, int),
            crate::error::Error,
        >((v, e + 1)),
    decreases ts.len() - i,
{
    lemma_typed_names_bounds(ts, i, closer, acc);
    let us = ts.insert(e - 1, Token::Comma);
    let (n, j) = ident(ts, i)->Ok_0;
    let k = j + 1;
    lemma_type_bounds(ts, k);
    let (t, m) = p_type(ts, k)->Ok_0;
    if next_is(ts, m, Token::Comma) {
        lemma_typed_names_bounds(ts, m + 1, closer, acc.push((n, t)));
    }
    assert(m <= e - 1);
    assert(us[i] == ts[i]);
    assert(us[j] == ts[j]);
    assert(tokens_agree(ts, us, k, m)) by {
        assert forall|x: int| k <= x < m implies #[trigger] us[x] == ts[x] by {}
    }
    lemma_type_local(ts, us, k);
    if m == e - 1 {
        assert(us[m] == Token::<Seq<char>>::Comma);
        assert(us[m + 1] == ts[m]);
        assert(p_typed_names(us, m + 1, closer, acc.push((n, t))) == Ok::<
            (Seq<(Seq<char>, TypeV)>, int),
            crate::error::Error,
        >((acc.push((n, t)), m + 2)));
    } else {
        assert(!next_is(ts, m + 1, closer));
        assert(us[m] == ts[m]);
        lemma_typed_names_comma(ts, m + 1, closer, acc.push((n, t)), v, e);
    }
}

/// In a list of `name: Type` entries (a struct's members or a function's
/// parameters), a comma after the last entry changes nothing: the same
/// entries are read, and the list ends one token later.
pub proof fn law_member_list_trailing_comma(
    ts: Seq<Tok>,
    i: int,
    closer: Tok,
    v: Seq<(Seq<char>, TypeV)>,
    e: int,
)
    requires
        0 <= i,
        closer == Token::<Seq<char>>::CloseParen || closer == Token::<Seq<char>>::CloseCurly,
        p_typed_names(ts, i, closer, Seq::empty()) == Ok::<(Seq<(Seq<char>, TypeV)>, int), crate::error::Error>((v, e)),
        v.len() > 0,
        i + 1 < e,
        ts[e - 2] != Token::<Seq<char>>::Comma,
    ensures
        p_typed_names(ts.insert(e - 1, Token::Comma), i, closer, Seq::empty()) == Ok::<
            (Seq<(Seq<char>, TypeV)>, int),
            crate::error::Error,
        >((v, e + 1)),
{
    lemma_typed_names_comma(ts, i, closer, Seq::empty(), v, e);
}

proof fn lemma_names_bounds(ts: Seq<Tok>, i: int, acc: Seq<Seq<char>>)
    requires
        0 <= i,
        p_names(ts, i, acc) is Ok,
    ensures
        i < p_names(ts, i, acc)->Ok_0.1 <= ts.len(),
        p_names(ts, i, acc)->Ok_0.0.len() >= acc.len(),
        !next_is(ts, i, Token::CloseCurly) ==> i + 1 < p_names(ts, i, acc)->Ok_0.1
            && p_names(ts, i, acc)->Ok_0.0.len() > acc.len(),
    decreases ts.len() - i,
{
    if !next_is(ts, i, Token::CloseCurly) {
        let (n, j) = ident(ts, i)->Ok_0;
        if next_is(ts, j, Token::Comma) {
            lemma_names_bounds(ts, j + 1, acc.push(n));
        }
    }
}

proof fn lemma_names_comma(ts: Seq<Tok>, i: int, acc: Seq<Seq<char>>, v: Seq<Seq<char>>, e: int)
    requires
        0 <= i,
        p_names(ts, i, acc) == Ok::<(Seq<Seq<char>>, int), crate::error::Error>((v, e)),
        v.len() > acc.len(),
        ts[e - 2] != Token::<Seq<char>>::Comma,
    ensures
        p_names(ts.insert(e - 1, Token::Comma), i, acc) == Ok::<(Seq<Seq<char>>, int), crate::error::Error>(
            (v, e + 1),
        ),
    decreases ts.len() - i,
{
    lemma_names_bounds(ts, i, acc);
    let us = ts.insert(e - 1, Token::Comma);
    let (n, j) = ident(ts, i)->Ok_0;
    if next_is(ts, j, Token::Comma) {
        lemma_names_bounds(ts, j + 1, acc.push(n));
    }
    assert(us[i] == ts[i]);
    if j == e - 1 {
        assert(us[j] == Token::<Seq<char>>::Comma);
        assert(us[j + 1] == ts[j]);
        assert(p_names(us, j + 1, acc.push(n)) == Ok::<(Seq<Seq<char>>, int), crate::error::Error>(
            (acc.push(n), j + 2),
        ));
    } else {
        assert(us[j] == ts[j]);
        assert(!next_is(ts, j + 1, Token::CloseCurly));
        lemma_names_comma(ts, j + 1, acc.push(n), v, e);
    }
}

/// In the variant list of an enum or flag declaration, a comma after the
/// last variant changes nothing: the same variants are read, and the list
/// ends one token later.
pub proof fn law_variant_list_trailing_comma(ts: Seq<Tok>, i: int, v: Seq<Seq<char>>, e: int)
    requires
        0 <= i,
        p_names(ts, i, Seq::empty()) == Ok::<(Seq<Seq<char>>, int), crate::error::Error>((v, e)),
        v.len() > 0,
        ts[e - 2] != Token::<Seq<char>>::Comma,
    ensures
        p_names(ts.insert(e - 1, Token::Comma), i, Seq::empty()) == Ok::<
            (Seq<Seq<char>>, int),
            crate::error::Error,
        >((v, e + 1)),
{
    lemma_names_comma(ts, i, Seq::empty(), v, e);
}

/// Tokens that never continue an expression: they only close or separate.
pub open spec fn stopper(t: Tok) -> bool {
    t == Token::<Seq<char>>::Comma || t == Token::<Seq<char>>::CloseParen
        || t == Token::<Seq<char>>::CloseSquare || t == Token::<Seq<char>>::CloseCurly
        || t == Token::<Seq<char>>::Semicolon
}

/// `us` agrees with `ts` on `[i, end)`, and at `end` holds the same token
/// or, like `ts`, a stopper.
pub open spec fn same_from(ts: Seq<Tok>, us: Seq<Tok>, i: int, end: int) -> bool {
    &&& tokens_agree(ts, us, i, end)
    &&& (peek(us, end) == peek(ts, end) || (end < ts.len() && end < us.len() && stopper(ts[end])
        && stopper(us[end])))
}

proof fn lemma_narrow(ts: Seq<Tok>, us: Seq<Tok>, i: int, end: int, i2: int, p: int)
    requires
        same_from(ts, us, i, end),
        i <= i2 <= p <= end,
    ensures
        same_from(ts, us, i2, p),
{
    if p < end {
        assert(us[p] == ts[p]);
    }
}

proof fn lb_expr(ts: Seq<Tok>, i: int, ns: bool)
    requires
        0 <= i,
        p_expr(ts, i, ns) is Ok,
    ensures
        i < p_expr(ts, i, ns)->Ok_0.1 <= ts.len(),
    decreases ts.len() - i, 23nat,
{
    lb_binary(ts, i, top_level(), ns);
}

proof fn lb_binary(ts: Seq<Tok>, i: int, level: nat, ns: bool)
    requires
        0 <= i,
        p_binary(ts, i, level, ns) is Ok,
    ensures
        i < p_binary(ts, i, level, ns)->Ok_0.1 <= ts.len(),
    decreases ts.len() - i, 12 + level,
{
    if level == 0 {
        lb_unary(ts, i, ns);
    } else {
        lb_binary(ts, i, (level - 1) as nat, ns);
        let (l, j) = p_binary(ts, i, (level - 1) as nat, ns)->Ok_0;
        lb_climb(ts, j, level, ns, l);
    }
}

proof fn lb_climb(ts: Seq<Tok>, i: int, level: nat, ns: bool, lhs: ExprV)
    requires
        0 <= i <= ts.len(),
        climb(ts, i, level, ns, lhs) is Ok,
    ensures
        i <= climb(ts, i, level, ns, lhs)->Ok_0.1 <= ts.len(),
    decreases ts.len() - i, 0nat,
{
    if let Some(t) = peek(ts, i) {
        if let Some(op) = binary_op(level, t) {
            lb_binary(ts, i + 1, (level - 1) as nat, ns);
            let (r, j) = p_binary(ts, i + 1, (level - 1) as nat, ns)->Ok_0;
            lb_climb(ts, j, level, ns, binop(lhs, op, r));
        }
    }
}

proof fn lb_unary(ts: Seq<Tok>, i: int, ns: bool)
    requires
        0 <= i,
        p_unary(ts, i, ns) is Ok,
    ensures
        i < p_unary(ts, i, ns)->Ok_0.1 <= ts.len(),
    decreases ts.len() - i, 11nat,
{
    if peek(ts, i) is Some && unary_op(ts[i]) is Some {
        lb_unary(ts, i + 1, ns);
    } else {
        lb_postfix(ts, i, ns);
    }
}

proof fn lb_postfix(ts: Seq<Tok>, i: int, ns: bool)
    requires
        0 <= i,
        p_postfix(ts, i, ns) is Ok,
    ensures
        i < p_postfix(ts, i, ns)->Ok_0.1 <= ts.len(),
    decreases ts.len() - i, 10nat,
{
    lb_primary(ts, i, ns);
    let (e, j) = p_primary(ts, i, ns)->Ok_0;
    lb_suffixes(ts, j, e);
}

proof fn lb_suffixes(ts: Seq<Tok>, i: int, e: ExprV)
    requires
        0 <= i <= ts.len(),
        suffixes(ts, i, e) is Ok,
    ensures
        i <= suffixes(ts, i, e)->Ok_0.1 <= ts.len(),
    decreases ts.len() - i, 0nat,
{
    match peek(ts, i) {
        Some(Token::OpenParen) => {
            lb_exprs(ts, i + 1, Token::CloseParen, Seq::empty());
            let (args, j) = p_exprs(ts, i + 1, Token::CloseParen, Seq::empty())->Ok_0;
            lb_suffixes(ts, j, ExprV::Call { func: Box::new(e), args });
        },
        Some(Token::OpenSquare) => {
            lb_expr(ts, i + 1, false);
            let (x, j) = p_expr(ts, i + 1, false)->Ok_0;
            lb_suffixes(ts, j + 1, ExprV::Subscript { obj: Box::new(e), idx: Box::new(x) });
        },
        Some(Token::Dot) => {
            let (n, j) = ident(ts, i + 1)->Ok_0;
            lb_suffixes(ts, j, ExprV::GetItem { obj: Box::new(e), item: n });
        },
        Some(Token::Arrow) => {
            let (n, j) = ident(ts, i + 1)->Ok_0;
            lb_suffixes(
                ts,
                j,
                ExprV::GetItem {
                    obj: Box::new(ExprV::Unop { op: Operator::Deref, expr: Box::new(e) }),
                    item: n,
                },
            );
        },
        _ => {},
    }
}

proof fn lb_primary(ts: Seq<Tok>, i: int, ns: bool)
    requires
        0 <= i,
        p_primary(ts, i, ns) is Ok,
    ensures
        i < p_primary(ts, i, ns)->Ok_0.1 <= ts.len(),
    decreases ts.len() - i, 9nat,
{
    match peek(ts, i) {
        Some(Token::Ident(n)) => {
            if !ns && next_is(ts, i + 1, Token::OpenCurly) {
                lb_items(ts, i + 2, Seq::empty());
            }
        },
        Some(Token::OpenSquare) => {
            lb_exprs(ts, i + 1, Token::CloseSquare, Seq::empty());
        },
        Some(Token::OpenParen) => {
            lb_paren(ts, i + 1);
        },
        _ => {},
    }
}

proof fn lb_paren(ts: Seq<Tok>, i: int)
    requires
        0 <= i,
        p_paren(ts, i) is Ok,
    ensures
        i < p_paren(ts, i)->Ok_0.1 <= ts.len(),
    decreases ts.len() - i, 24nat,
{
    if !next_is(ts, i, Token::CloseParen) {
        lb_expr(ts, i, false);
        let (e, j) = p_expr(ts, i, false)->Ok_0;
        if next_is(ts, j, Token::Comma) {
            lb_exprs(ts, j + 1, Token::CloseParen, seq![e]);
        }
    }
}

proof fn lb_exprs(ts: Seq<Tok>, i: int, closer: Tok, acc: Seq<ExprV>)
    requires
        0 <= i,
        p_exprs(ts, i, closer, acc) is Ok,
    ensures
        i < p_exprs(ts, i, closer, acc)->Ok_0.1 <= ts.len(),
        p_exprs(ts, i, closer, acc)->Ok_0.0.len() >= acc.len(),
        !next_is(ts, i, closer) ==> i + 1 < p_exprs(ts, i, closer, acc)->Ok_0.1
            && p_exprs(ts, i, closer, acc)->Ok_0.0.len() > acc.len(),
    decreases ts.len() - i, 24nat,
{
    if !next_is(ts, i, closer) {
        lb_expr(ts, i, false);
        let (e, j) = p_expr(ts, i, false)->Ok_0;
        if next_is(ts, j, Token::Comma) {
            lb_exprs(ts, j + 1, closer, acc.push(e));
        }
    }
}

proof fn lb_items(ts: Seq<Tok>, i: int, acc: Seq<(Seq<char>, ExprV)>)
    requires
        0 <= i,
        p_items(ts, i, acc) is Ok,
    ensures
        i < p_items(ts, i, acc)->Ok_0.1 <= ts.len(),
        p_items(ts, i, acc)->Ok_0.0.len() >= acc.len(),
        !next_is(ts, i, Token::CloseCurly) ==> i + 1 < p_items(ts, i, acc)->Ok_0.1
            && p_items(ts, i, acc)->Ok_0.0.len() > acc.len(),
    decreases ts.len() - i, 24nat,
{
    if !next_is(ts, i, Token::CloseCurly) {
        let (f, k) = ident(ts, i + 1)->Ok_0;
        lb_expr(ts, i + 3, false);
        let (x, n) = p_expr(ts, i + 3, false)->Ok_0;
        if next_is(ts, n, Token::Comma) {
            lb_items(ts, n + 1, acc.push((f, x)));
        }
    }
}

proof fn ll_expr(ts: Seq<Tok>, us: Seq<Tok>, i: int, ns: bool)
    requires
        0 <= i,
        p_expr(ts, i, ns) is Ok,
        same_from(ts, us, i, p_expr(ts, i, ns)->Ok_0.1),
    ensures
        p_expr(us, i, ns) == p_expr(ts, i, ns),
    decreases ts.len() - i, 23nat,
{
    ll_binary(ts, us, i, top_level(), ns);
}

proof fn ll_binary(ts: Seq<Tok>, us: Seq<Tok>, i: int, level: nat, ns: bool)
    requires
        0 <= i,
        p_binary(ts, i, level, ns) is Ok,
        same_from(ts, us, i, p_binary(ts, i, level, ns)->Ok_0.1),
    ensures
        p_binary(us, i, level, ns) == p_binary(ts, i, level, ns),
    decreases ts.len() - i, 12 + level,
{
    let end = p_binary(ts, i, level, ns)->Ok_0.1;
    if level == 0 {
        ll_unary(ts, us, i, ns);
    } else {
        lb_binary(ts, i, (level - 1) as nat, ns);
        let (l, j) = p_binary(ts, i, (level - 1) as nat, ns)->Ok_0;
        lb_climb(ts, j, level, ns, l);
        lemma_narrow(ts, us, i, end, i, j);
        ll_binary(ts, us, i, (level - 1) as nat, ns);
        lemma_narrow(ts, us, i, end, j, end);
        ll_climb(ts, us, j, level, ns, l);
    }
}

proof fn ll_climb(ts: Seq<Tok>, us: Seq<Tok>, i: int, level: nat, ns: bool, lhs: ExprV)
    requires
        0 <= i <= ts.len(),
        climb(ts, i, level, ns, lhs) is Ok,
        same_from(ts, us, i, climb(ts, i, level, ns, lhs)->Ok_0.1),
    ensures
        climb(us, i, level, ns, lhs) == climb(ts, i, level, ns, lhs),
    decreases ts.len() - i, 0nat,
{
    let end = climb(ts, i, level, ns, lhs)->Ok_0.1;
    lb_climb(ts, i, level, ns, lhs);
    if peek(ts, i) is Some && binary_op(level, ts[i]) is Some {
        let t = ts[i];
        let op = binary_op(level, t)->0;
        lb_binary(ts, i + 1, (level - 1) as nat, ns);
        let (r, j) = p_binary(ts, i + 1, (level - 1) as nat, ns)->Ok_0;
        lb_climb(ts, j, level, ns, binop(lhs, op, r));
        assert(us[i] == ts[i]);
        lemma_narrow(ts, us, i, end, i + 1, j);
        ll_binary(ts, us, i + 1, (level - 1) as nat, ns);
        lemma_narrow(ts, us, i, end, j, end);
        ll_climb(ts, us, j, level, ns, binop(lhs, op, r));
    } else if peek(us, i) != peek(ts, i) {
        assert(binary_op(level, us[i]) is None);
    }
}

proof fn ll_unary(ts: Seq<Tok>, us: Seq<Tok>, i: int, ns: bool)
    requires
        0 <= i,
        p_unary(ts, i, ns) is Ok,
        same_from(ts, us, i, p_unary(ts, i, ns)->Ok_0.1),
    ensures
        p_unary(us, i, ns) == p_unary(ts, i, ns),
    decreases ts.len() - i, 11nat,
{
    let end = p_unary(ts, i, ns)->Ok_0.1;
    lb_unary(ts, i, ns);
    assert(us[i] == ts[i]);
    if peek(ts, i) is Some && unary_op(ts[i]) is Some {
        lemma_narrow(ts, us, i, end, i + 1, end);
        ll_unary(ts, us, i + 1, ns);
    } else {
        ll_postfix(ts, us, i, ns);
    }
}

proof fn ll_postfix(ts: Seq<Tok>, us: Seq<Tok>, i: int, ns: bool)
    requires
        0 <= i,
        p_postfix(ts, i, ns) is Ok,
        same_from(ts, us, i, p_postfix(ts, i, ns)->Ok_0.1),
    ensures
        p_postfix(us, i, ns) == p_postfix(ts, i, ns),
    decreases ts.len() - i, 10nat,
{
    let end = p_postfix(ts, i, ns)->Ok_0.1;
    lb_primary(ts, i, ns);
    let (e, j) = p_primary(ts, i, ns)->Ok_0;
    lb_suffixes(ts, j, e);
    lemma_narrow(ts, us, i, end, i, j);
    ll_primary(ts, us, i, ns);
    lemma_narrow(ts, us, i, end, j, end);
    ll_suffixes(ts, us, j, e);
}

proof fn ll_suffixes(ts: Seq<Tok>, us: Seq<Tok>, i: int, e: ExprV)
    requires
        0 <= i <= ts.len(),
        suffixes(ts, i, e) is Ok,
        same_from(ts, us, i, suffixes(ts, i, e)->Ok_0.1),
    ensures
        suffixes(us, i, e) == suffixes(ts, i, e),
    decreases ts.len() - i, 0nat,
{
    let end = suffixes(ts, i, e)->Ok_0.1;
    lb_suffixes(ts, i, e);
    let starts = peek(ts, i) == Some(Token::<Seq<char>>::OpenParen) || peek(ts, i) == Some(
        Token::<Seq<char>>::OpenSquare,
    ) || peek(ts, i) == Some(Token::<Seq<char>>::Dot) || peek(ts, i) == Some(
        Token::<Seq<char>>::Arrow,
    );
    if starts {
        match peek(ts, i) {
            Some(Token::OpenParen) => {
                lb_exprs(ts, i + 1, Token::CloseParen, Seq::empty());
                let (args, j) = p_exprs(ts, i + 1, Token::CloseParen, Seq::empty())->Ok_0;
                let f = ExprV::Call { func: Box::new(e), args };
                lb_suffixes(ts, j, f);
                assert(us[i] == ts[i]);
                lemma_narrow(ts, us, i, end, i + 1, j);
                ll_exprs(ts, us, i + 1, Token::CloseParen, Seq::empty());
                lemma_narrow(ts, us, i, end, j, end);
                ll_suffixes(ts, us, j, f);
            },
            Some(Token::OpenSquare) => {
                lb_expr(ts, i + 1, false);
                let (x, j) = p_expr(ts, i + 1, false)->Ok_0;
                let f = ExprV::Subscript { obj: Box::new(e), idx: Box::new(x) };
                lb_suffixes(ts, j + 1, f);
                assert(us[i] == ts[i]);
                assert(us[j] == ts[j]);
                lemma_narrow(ts, us, i, end, i + 1, j);
                ll_expr(ts, us, i + 1, false);
                lemma_narrow(ts, us, i, end, j + 1, end);
                ll_suffixes(ts, us, j + 1, f);
            },
            Some(Token::Dot) => {
                let (n, j) = ident(ts, i + 1)->Ok_0;
                let f = ExprV::GetItem { obj: Box::new(e), item: n };
                lb_suffixes(ts, j, f);
                assert(us[i] == ts[i]);
                assert(us[i + 1] == ts[i + 1]);
                lemma_narrow(ts, us, i, end, j, end);
                ll_suffixes(ts, us, j, f);
            },
            Some(Token::Arrow) => {
                let (n, j) = ident(ts, i + 1)->Ok_0;
                let f = ExprV::GetItem {
                    obj: Box::new(ExprV::Unop { op: Operator::Deref, expr: Box::new(e) }),
                    item: n,
                };
                lb_suffixes(ts, j, f);
                assert(us[i] == ts[i]);
                assert(us[i + 1] == ts[i + 1]);
                lemma_narrow(ts, us, i, end, j, end);
                ll_suffixes(ts, us, j, f);
            },
            _ => {},
        }
    } else if peek(us, i) != peek(ts, i) {
        assert(stopper(us[i]) && stopper(ts[i]));
    }
}

proof fn ll_primary(ts: Seq<Tok>, us: Seq<Tok>, i: int, ns: bool)
    requires
        0 <= i,
        p_primary(ts, i, ns) is Ok,
        same_from(ts, us, i, p_primary(ts, i, ns)->Ok_0.1),
    ensures
        p_primary(us, i, ns) == p_primary(ts, i, ns),
    decreases ts.len() - i, 9nat,
{
    let end = p_primary(ts, i, ns)->Ok_0.1;
    lb_primary(ts, i, ns);
    assert(us[i] == ts[i]);
    match peek(ts, i) {
        Some(Token::Ident(n)) => {
            if !ns && next_is(ts, i + 1, Token::OpenCurly) {
                lb_items(ts, i + 2, Seq::empty());
                assert(us[i + 1] == ts[i + 1]);
                lemma_narrow(ts, us, i, end, i + 2, end);
                ll_items(ts, us, i + 2, Seq::empty());
            }
        },
        Some(Token::OpenSquare) => {
            lemma_narrow(ts, us, i, end, i + 1, end);
            ll_exprs(ts, us, i + 1, Token::CloseSquare, Seq::empty());
        },
        Some(Token::OpenParen) => {
            lemma_narrow(ts, us, i, end, i + 1, end);
            ll_paren(ts, us, i + 1);
        },
        _ => {},
    }
}

proof fn ll_paren(ts: Seq<Tok>, us: Seq<Tok>, i: int)
    requires
        0 <= i,
        p_paren(ts, i) is Ok,
        same_from(ts, us, i, p_paren(ts, i)->Ok_0.1),
    ensures
        p_paren(us, i) == p_paren(ts, i),
    decreases ts.len() - i, 24nat,
{
    let end = p_paren(ts, i)->Ok_0.1;
    lb_paren(ts, i);
    assert(us[i] == ts[i]);
    if !next_is(ts, i, Token::CloseParen) {
        lb_expr(ts, i, false);
        let (e, j) = p_expr(ts, i, false)->Ok_0;
        if next_is(ts, j, Token::Comma) {
            lb_exprs(ts, j + 1, Token::CloseParen, seq![e]);
        }
        lemma_narrow(ts, us, i, end, i, j);
        ll_expr(ts, us, i, false);
        if next_is(ts, j, Token::Comma) {
            lb_exprs(ts, j + 1, Token::CloseParen, seq![e]);
            assert(us[j] == ts[j]);
            lemma_narrow(ts, us, i, end, j + 1, end);
            ll_exprs(ts, us, j + 1, Token::CloseParen, seq![e]);
        } else {
            assert(us[j] == ts[j]);
        }
    }
}

proof fn ll_exprs(ts: Seq<Tok>, us: Seq<Tok>, i: int, closer: Tok, acc: Seq<ExprV>)
    requires
        0 <= i,
        p_exprs(ts, i, closer, acc) is Ok,
        same_from(ts, us, i, p_exprs(ts, i, closer, acc)->Ok_0.1),
    ensures
        p_exprs(us, i, closer, acc) == p_exprs(ts, i, closer, acc),
    decreases ts.len() - i, 24nat,
{
    let end = p_exprs(ts, i, closer, acc)->Ok_0.1;
    lb_exprs(ts, i, closer, acc);
    assert(us[i] == ts[i]);
    if !next_is(ts, i, closer) {
        lb_expr(ts, i, false);
        let (e, j) = p_expr(ts, i, false)->Ok_0;
        if next_is(ts, j, Token::Comma) {
            lb_exprs(ts, j + 1, closer, acc.push(e));
        }
        assert(us[j] == ts[j]);
        lemma_narrow(ts, us, i, end, i, j);
        ll_expr(ts, us, i, false);
        if next_is(ts, j, Token::Comma) {
            lemma_narrow(ts, us, i, end, j + 1, end);
            ll_exprs(ts, us, j + 1, closer, acc.push(e));
        }
    }
}

proof fn ll_items(ts: Seq<Tok>, us: Seq<Tok>, i: int, acc: Seq<(Seq<char>, ExprV)>)
    requires
        0 <= i,
        p_items(ts, i, acc) is Ok,
        same_from(ts, us, i, p_items(ts, i, acc)->Ok_0.1),
    ensures
        p_items(us, i, acc) == p_items(ts, i, acc),
    decreases ts.len() - i, 24nat,
{
    let end = p_items(ts, i, acc)->Ok_0.1;
    lb_items(ts, i, acc);
    assert(us[i] == ts[i]);
    if !next_is(ts, i, Token::CloseCurly) {
        let (f, k) = ident(ts, i + 1)->Ok_0;
        lb_expr(ts, i + 3, false);
        let (x, n) = p_expr(ts, i + 3, false)->Ok_0;
        if next_is(ts, n, Token::Comma) {
            lb_items(ts, n + 1, acc.push((f, x)));
        }
        assert(us[i + 1] == ts[i + 1]);
        assert(us[i + 2] == ts[i + 2]);
        assert(us[n] == ts[n]);
        lemma_narrow(ts, us, i, end, i + 3, n);
        ll_expr(ts, us, i + 3, false);
        if next_is(ts, n, Token::Comma) {
            lemma_narrow(ts, us, i, end, n + 1, end);
            ll_items(ts, us, n + 1, acc.push((f, x)));
        }
    }
}

proof fn lemma_exprs_comma(ts: Seq<Tok>, i: int, closer: Tok, acc: Seq<ExprV>, v: Seq<ExprV>, e: int)
    requires
        0 <= i,
        closer == Token::<Seq<char>>::CloseParen || closer == Token::<Seq<char>>::CloseSquare,
        p_exprs(ts, i, closer, acc) == Ok::<(Seq<ExprV>, int), crate::error::Error>((v, e)),
        v.len() > acc.len(),
        ts[e - 2] != Token::<Seq<char>>::Comma,
    ensures
        p_exprs(ts.insert(e - 1, Token::Comma), i, closer, acc) == Ok::<(Seq<ExprV>, int), crate::error::Error>(
            (v, e + 1),
        ),
    decreases ts.len() - i,
{
    lb_exprs(ts, i, closer, acc);
    let us = ts.insert(e - 1, Token::Comma);
    lb_expr(ts, i, false);
    let (x, m) = p_expr(ts, i, false)->Ok_0;
    if next_is(ts, m, Token::Comma) {
        lb_exprs(ts, m + 1, closer, acc.push(x));
    }
    assert(m <= e - 1);
    assert(us[i] == ts[i]);
    assert(same_from(ts, us, i, m)) by {
        assert forall|q: int| i <= q < m implies #[trigger] us[q] == ts[q] by {}
        if m < e - 1 {
            assert(us[m] == ts[m]);
        } else {
            assert(us[m] == Token::<Seq<char>>::Comma);
        }
    }
    ll_expr(ts, us, i, false);
    if m == e - 1 {
        assert(us[m] == Token::<Seq<char>>::Comma);
        assert(us[m + 1] == ts[m]);
        assert(p_exprs(us, m + 1, closer, acc.push(x)) == Ok::<(Seq<ExprV>, int), crate::error::Error>(
            (acc.push(x), m + 2),
        ));
    } else {
        assert(us[m] == ts[m]);
        assert(!next_is(ts, m + 1, closer));
        lemma_exprs_comma(ts, m + 1, closer, acc.push(x), v, e);
    }
}

/// In the argument list of a call, or the elements of a list literal, a
/// comma after the last entry changes nothing: the same expressions are
/// read, and the list ends one token later.
pub proof fn law_argument_list_trailing_comma(ts: Seq<Tok>, i: int, closer: Tok, v: Seq<ExprV>, e: int)
    requires
        0 <= i,
        closer == Token::<Seq<char>>::CloseParen || closer == Token::<Seq<char>>::CloseSquare,
        p_exprs(ts, i, closer, Seq::empty()) == Ok::<(Seq<ExprV>, int), crate::error::Error>((v, e)),
        v.len() > 0,
        ts[e - 2] != Token::<Seq<char>>::Comma,
    ensures
        p_exprs(ts.insert(e - 1, Token::Comma), i, closer, Seq::empty()) == Ok::<
            (Seq<ExprV>, int),
            crate::error::Error,
        >((v, e + 1)),
{
    lemma_exprs_comma(ts, i, closer, Seq::empty(), v, e);
}

proof fn lemma_items_comma(
    ts: Seq<Tok>,
    i: int,
    acc: Seq<(Seq<char>, ExprV)>,
    v: Seq<(Seq<char>, ExprV)>,
    e: int,
)
    requires
        0 <= i,
        p_items(ts, i, acc) == Ok::<(Seq<(Seq<char>, ExprV)>, int), crate::error::Error>((v, e)),
        v.len() > acc.len(),
        ts[e - 2] != Token::<Seq<char>>::Comma,
    ensures
        p_items(ts.insert(e - 1, Token::Comma), i, acc) == Ok::<
            (Seq<(Seq<char>, ExprV)>, int),
            crate::error::Error,
        >((v, e + 1)),
    decreases ts.len() - i,
{
    lb_items(ts, i, acc);
    let us = ts.insert(e - 1, Token::Comma);
    let (f, k) = ident(ts, i + 1)->Ok_0;
    lb_expr(ts, i + 3, false);
    let (x, m) = p_expr(ts, i + 3, false)->Ok_0;
    if next_is(ts, m, Token::Comma) {
        lb_items(ts, m + 1, acc.push((f, x)));
    }
    assert(m <= e - 1);
    assert(us[i] == ts[i]);
    assert(us[i + 1] == ts[i + 1]);
    assert(us[i + 2] == ts[i + 2]);
    assert(same_from(ts, us, i + 3, m)) by {
        assert forall|q: int| i + 3 <= q < m implies #[trigger] us[q] == ts[q] by {}
        if m < e - 1 {
            assert(us[m] == ts[m]);
        } else {
            assert(us[m] == Token::<Seq<char>>::Comma);
        }
    }
    ll_expr(ts, us, i + 3, false);
    if m == e - 1 {
        assert(us[m] == Token::<Seq<char>>::Comma);
        assert(us[m + 1] == ts[m]);
        assert(p_items(us, m + 1, acc.push((f, x))) == Ok::<
            (Seq<(Seq<char>, ExprV)>, int),
            crate::error::Error,
        >((acc.push((f, x)), m + 2)));
    } else {
        assert(us[m] == ts[m]);
        assert(!next_is(ts, m + 1, Token::CloseCurly));
        lemma_items_comma(ts, m + 1, acc.push((f, x)), v, e);
    }
}

/// In the `.field = value` list of a struct literal, a comma after the
/// last entry changes nothing: the same entries are read, and the list
/// ends one token later.
pub proof fn law_field_list_trailing_comma(ts: Seq<Tok>, i: int, v: Seq<(Seq<char>, ExprV)>, e: int)
    requires
        0 <= i,
        p_items(ts, i, Seq::empty()) == Ok::<(Seq<(Seq<char>, ExprV)>, int), crate::error::Error>((v, e)),
        v.len() > 0,
        ts[e - 2] != Token::<Seq<char>>::Comma,
    ensures
        p_items(ts.insert(e - 1, Token::Comma), i, Seq::empty()) == Ok::<
            (Seq<(Seq<char>, ExprV)>, int),
            crate::error::Error,
        >((v, e + 1)),
{
    lemma_items_comma(ts, i, Seq::empty(), v, e);
}

proof fn lemma_leading_zero(cs: Seq<char>, k: int, radix: u32)
    requires
        1 <= k <= cs.len(),
        cs[0] == '0',
        radix >= 2,
    ensures
        digits_value(cs, 1, k, radix) == digits_value(cs, 0, k, radix),
    decreases k,
{
    if k > 1 {
        lemma_leading_zero(cs, k - 1, radix);
    } else {
        assert(digits_value(cs, 0, 0, radix) == 0);
    }
}

/// An integer literal (decimal, leading zeros allowed, or `0x`, `0o`, `0b`
/// and digits of that base) whose value fits in `i64`, followed by nothing
/// or by a character that is neither a letter nor a digit of its base,
/// is read as the integer its digits denote, and it is the first token.
pub proof fn law_integer_literal(prefix: Seq<char>, radix: u32, d: Seq<char>, rest: Seq<char>)
    requires
        (prefix.len() == 0 && radix == 10) || (prefix.len() == 2 && prefix[0] == '0' && (
        prefix[1] == 'x' || prefix[1] == 'o' || prefix[1] == 'b') && radix == radix_of(prefix[1])),
        digits_in(d, radix),
        value_of(d, radix) <= i64::MAX,
        rest.len() > 0 ==> !letter(rest[0]) && digit_value(rest[0], radix) is None,
    ensures
        scan(prefix + d + rest, 0) == Some(
            (Token::<Seq<char>>::Int(value_of(d, radix) as i64), (prefix.len() + d.len()) as int),
        ),
        tokens_of(prefix + d + rest).len() >= 1,
        tokens_of(prefix + d + rest)[0] == Token::<Seq<char>>::Int(value_of(d, radix) as i64),
{
    let cs = prefix + d + rest;
    let p = prefix.len() as int;
    let n = d.len() as int;
    let v = value_of(d, radix);
    assert(cs =~= prefix + (d + rest));
    assert forall|k: int| 0 <= k < n implies #[trigger] cs[p + k] == d[k] by {}
    assert forall|k: int| p <= k < p + n implies digit_value(#[trigger] cs[k], radix) is Some by {
        assert(cs[k] == d[k - p]);
    }
    if p + n < cs.len() {
        assert(cs[p + n] == rest[0]);
    }
    lemma_digits_value_shift(prefix, d + rest, n, radix);
    lemma_digits_value_agree(d, d + rest, 0, n, radix);
    if p == 2 {
        assert(cs[0] == '0' && cs[1] == prefix[1]);
        lemma_digits_end(cs, 2, 2 + n, radix);
    } else {
        assert(prefix =~= Seq::<char>::empty());
        assert(cs =~= d + rest);
        if d[0] != '0' {
            lemma_digits_end(cs, 0, n, 10);
        } else if n == 1 {
            assert(digits_value(d, 0, 0, 10) == 0);
            if cs.len() > 1 {
                assert(cs[1] == rest[0]);
                assert(!ascii_digit(rest[0]));
            }
        } else {
            lemma_digits_end(cs, 1, n, 10);
            lemma_leading_zero(cs, n, 10);
        }
    }
    assert(scan(cs, 0) == Some((Token::<Seq<char>>::Int(v as i64), p + n)));
    assert(skip_whitespace(cs, 0) == 0);
    lemma_scan_advances(cs, 0);
}

} // verus!
