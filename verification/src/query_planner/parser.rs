//! Textual expression syntax: strings like `"age + 10 > 40"`,
//! `"upper(name)"` or `"tags[0] contains \"rust\""` read into
//! [`LogicalExpr`] trees.
//!
//! Reading happens in two steps. [`tokenize`] splits the text into tokens,
//! each with the byte offset where its scan began; a decimal literal comes
//! out as its text. Once every decimal literal has been given its double
//! value ([`Token::Float`]), [`parse_tokens`] reads the tokens with the
//! grammar (precedence low to high): `or` < `and` < comparison
//! (`== != > >= < <= in contains`) < `+ -` < `* / %` < unary (`- not`) <
//! primary. The syntax cannot express subqueries.
use vstd::prelude::*;
use crate::query_planner::ir::{
    segment_view, BinaryOp, FieldPath, FieldSegment, LogicalExpr, QueryValue, SegmentView, UnaryOp, ValueView,
};
use crate::query_planner::physical_expr::{debug_quote, quoted};
use crate::query_planner::plan::texts_view;
use crate::query_planner::value_text::{append_signed, signed_decimal};
use crate::render::{decimal, push_char, same_text};
use vstd::string::StringSliceAdditionalSpecFns;

verus! {

/// A syntax error and the byte offset where it was found.
#[derive(Debug)]
pub struct ParseError {
    pub message: String,
    pub position: usize,
}

impl ParseError {
    /// Human-readable rendering of the error.
    pub open spec fn text(self) -> Seq<char> {
        "expression parse error at "@ + decimal(self.position as nat) + ": "@ + self.message@
    }

    pub fn to_string(&self) -> (s: String)
        ensures
            s@ == self.text(),
    {
        let mut s = crate::render::concat_num("expression parse error at ", self.position as u64, ": ");
        s.append(self.message.as_str());
        s
    }
}

/// A lexical token.
#[derive(Debug, PartialEq)]
pub enum Token {
    Int(i64),
    /// A decimal literal (`digits.digits`) as written.
    Decimal(String),
    /// A decimal literal's value: its IEEE-754 bits and its debug rendering.
    Float(u64, String),
    Str(String),
    Ident(String),
    Op(String),
    LParen,
    RParen,
    LBracket,
    RBracket,
    Comma,
    Dot,
    Eof,
}

/// The content of a token.
pub enum TokenView {
    Int(i64),
    Decimal(Seq<char>),
    Float(u64, Seq<char>),
    Str(Seq<char>),
    Ident(Seq<char>),
    Op(Seq<char>),
    LParen,
    RParen,
    LBracket,
    RBracket,
    Comma,
    Dot,
    Eof,
}

pub open spec fn token_view(t: Token) -> TokenView {
    match t {
        Token::Int(i) => TokenView::Int(i),
        Token::Decimal(s) => TokenView::Decimal(s@),
        Token::Float(bits, shown) => TokenView::Float(bits, shown@),
        Token::Str(s) => TokenView::Str(s@),
        Token::Ident(s) => TokenView::Ident(s@),
        Token::Op(s) => TokenView::Op(s@),
        Token::LParen => TokenView::LParen,
        Token::RParen => TokenView::RParen,
        Token::LBracket => TokenView::LBracket,
        Token::RBracket => TokenView::RBracket,
        Token::Comma => TokenView::Comma,
        Token::Dot => TokenView::Dot,
        Token::Eof => TokenView::Eof,
    }
}

/// The content of each positioned token.
pub open spec fn tokens_view(ts: Seq<(Token, usize)>) -> Seq<(TokenView, int)> {
    ts.map_values(|t: (Token, usize)| (token_view(t.0), t.1 as int))
}

/// ASCII whitespace: space, tab, line feed, form feed, carriage return.
pub open spec fn is_space(c: u8) -> bool {
    c == 32 || c == 9 || c == 10 || c == 12 || c == 13
}

pub open spec fn is_digit_byte(c: u8) -> bool {
    48 <= c <= 57
}

pub open spec fn is_alpha(c: u8) -> bool {
    (65 <= c <= 90) || (97 <= c <= 122)
}

/// A byte that continues an identifier: a letter, a digit, `_` or `:`.
pub open spec fn is_ident_byte(c: u8) -> bool {
    is_alpha(c) || is_digit_byte(c) || c == 95 || c == 58
}

/// The bytes, each read as the character of the same code.
pub open spec fn bytes_chars(b: Seq<u8>) -> Seq<char> {
    b.map_values(|c: u8| c as char)
}

/// The value of a string of decimal digits.
pub open spec fn bytes_value(d: Seq<u8>) -> nat
    decreases d.len(),
{
    if d.len() == 0 {
        0
    } else {
        bytes_value(d.drop_last()) * 10 + (d.last() - 48) as nat
    }
}

/// The first offset from `p` on that holds no whitespace.
pub open spec fn skip_spaces(b: Seq<u8>, p: int) -> int
    decreases b.len() - p,
{
    if 0 <= p < b.len() && is_space(b[p]) { skip_spaces(b, p + 1) } else { p }
}

/// The end of the run of digits starting at `p`.
pub open spec fn digits_end(b: Seq<u8>, p: int) -> int
    decreases b.len() - p,
{
    if 0 <= p < b.len() && is_digit_byte(b[p]) { digits_end(b, p + 1) } else { p }
}

/// The end of the identifier continuing at `p`; a `:` must be the first of
/// `::`, else the offset of that `:` is the error.
pub open spec fn ident_end(b: Seq<u8>, p: int) -> Result<int, int>
    decreases b.len() - p,
{
    if 0 <= p < b.len() && is_ident_byte(b[p]) {
        if b[p] == 58 {
            if p + 1 >= b.len() || b[p + 1] != 58 { Err(p) } else { ident_end(b, p + 2) }
        } else {
            ident_end(b, p + 1)
        }
    } else {
        Ok(p)
    }
}

/// The character an escape `\x` stands for.
pub open spec fn escaped(c: u8) -> char {
    if c == 110 { '\n' } else if c == 116 { '\t' } else if c == 114 { '\r' } else { c as char }
}

/// A string literal's characters from `p` up to the closing `quote`, and
/// the offset after it; the end of input when it is never closed.
pub open spec fn string_body(b: Seq<u8>, p: int, quote: u8) -> Result<(Seq<char>, int), int>
    decreases b.len() - p,
{
    if p < 0 || p >= b.len() {
        Err(b.len() as int)
    } else if b[p] == quote {
        Ok((Seq::empty(), p + 1))
    } else if b[p] == 92 && p + 1 < b.len() {
        match string_body(b, p + 2, quote) {
            Ok((rest, q)) => Ok((seq![escaped(b[p + 1])] + rest, q)),
            Err(e) => Err(e),
        }
    } else {
        match string_body(b, p + 1, quote) {
            Ok((rest, q)) => Ok((seq![b[p] as char] + rest, q)),
            Err(e) => Err(e),
        }
    }
}

/// The operator at `p`: a two-byte comparison, else a one-byte operator.
pub open spec fn operator_at(b: Seq<u8>, p: int) -> Option<Seq<char>> {
    if p + 2 <= b.len() && b[p + 1] == 61 && (b[p] == 61 || b[p] == 33 || b[p] == 62 || b[p] == 60) {
        Some(bytes_chars(b.subrange(p, p + 2)))
    } else if b[p] == 62 || b[p] == 60 || b[p] == 43 || b[p] == 45 || b[p] == 42 || b[p] == 47 || b[p] == 37 {
        Some(seq![b[p] as char])
    } else {
        None
    }
}

/// The token whose scan starts at `p0` (after whitespace) and the offset
/// after it, or an error message and offset.
pub open spec fn lex_token(b: Seq<u8>, p0: int) -> Result<(TokenView, int), (Seq<char>, int)> {
    let p = skip_spaces(b, p0);
    if p >= b.len() {
        Ok((TokenView::Eof, p))
    } else {
        let c = b[p];
        if c == 40 {
            Ok((TokenView::LParen, p + 1))
        } else if c == 41 {
            Ok((TokenView::RParen, p + 1))
        } else if c == 91 {
            Ok((TokenView::LBracket, p + 1))
        } else if c == 93 {
            Ok((TokenView::RBracket, p + 1))
        } else if c == 44 {
            Ok((TokenView::Comma, p + 1))
        } else if c == 46 {
            Ok((TokenView::Dot, p + 1))
        } else if c == 34 || c == 39 {
            match string_body(b, p + 1, c) {
                Ok((s, q)) => Ok((TokenView::Str(s), q)),
                Err(q) => Err(("unterminated string literal"@, q)),
            }
        } else if is_digit_byte(c) {
            let e = digits_end(b, p);
            if b.len() - e > 1 && b[e] == 46 && is_digit_byte(b[e + 1]) {
                let f = digits_end(b, e + 1);
                Ok((TokenView::Decimal(bytes_chars(b.subrange(p, f))), f))
            } else if bytes_value(b.subrange(p, e)) <= i64::MAX {
                Ok((TokenView::Int(bytes_value(b.subrange(p, e)) as i64), e))
            } else {
                Err(("invalid integer literal"@, e))
            }
        } else if is_alpha(c) || c == 95 {
            match ident_end(b, p) {
                Ok(e) => Ok((TokenView::Ident(bytes_chars(b.subrange(p, e))), e)),
                Err(q) => Err(("expected '::' inside identifier"@, q)),
            }
        } else {
            match operator_at(b, p) {
                Some(op) => Ok((TokenView::Op(op), p + op.len())),
                None => Err(("unexpected character"@, p)),
            }
        }
    }
}

/// The tokens from `p` on, each at the offset where its scan began, up to
/// and including `Eof`; or the first error.
pub open spec fn lex_from(b: Seq<u8>, p: int) -> Result<Seq<(TokenView, int)>, (Seq<char>, int)>
    decreases b.len() - p,
{
    match lex_token(b, p) {
        Err(e) => Err(e),
        Ok((t, q)) => if t is Eof {
            Ok(seq![(t, p)])
        } else if p < q <= b.len() {
            match lex_from(b, q) {
                Ok(rest) => Ok(seq![(t, p)] + rest),
                Err(e) => Err(e),
            }
        } else {
            Err((Seq::empty(), q))
        },
    }
}

/// A token stream the lexer yields ends with its only `Eof`: once its
/// decimal literals are given values, the grammar reads it.
pub proof fn lemma_tokens_end_with_eof(b: Seq<u8>, p: int)
    requires
        lex_from(b, p) is Ok,
    ensures
        lex_from(b, p)->Ok_0.len() > 0,
        lex_from(b, p)->Ok_0.last().0 is Eof,
        forall|j: int| 0 <= j < lex_from(b, p)->Ok_0.len() - 1 ==> !(#[trigger] lex_from(b, p)->Ok_0[j].0 is Eof),
    decreases b.len() - p,
{
    let ts = lex_from(b, p)->Ok_0;
    match lex_token(b, p) {
        Ok((t, q)) => if !(t is Eof) && p < q <= b.len() {
            lemma_tokens_end_with_eof(b, q);
            let rest = lex_from(b, q)->Ok_0;
            assert(ts == seq![(t, p)] + rest);
            assert forall|j: int| 0 <= j < ts.len() - 1 implies !(#[trigger] ts[j].0 is Eof) by {
                if j > 0 {
                    assert(ts[j] == rest[j - 1]);
                }
            }
        },
        Err(_) => {},
    }
}

fn skip_spaces_exec(b: &[u8], p: usize) -> (r: usize)
    requires
        p <= b@.len(),
    ensures
        r == skip_spaces(b@, p as int),
        p <= r <= b@.len(),
{
    let mut i = p;
    while i < b.len() && (b[i] == 32 || b[i] == 9 || b[i] == 10 || b[i] == 12 || b[i] == 13)
        invariant
            p <= i <= b@.len(),
            skip_spaces(b@, p as int) == skip_spaces(b@, i as int),
        decreases b@.len() - i,
    {
        i = i + 1;
    }
    i
}

fn digits_end_exec(b: &[u8], p: usize) -> (r: usize)
    requires
        p <= b@.len(),
    ensures
        r == digits_end(b@, p as int),
        p <= r <= b@.len(),
        p < b@.len() && is_digit_byte(b@[p as int]) ==> p < r,
        forall|k: int| p <= k < r ==> is_digit_byte(#[trigger] b@[k]),
{
    let mut i = p;
    while i < b.len() && 48 <= b[i] && b[i] <= 57
        invariant
            p <= i <= b@.len(),
            digits_end(b@, p as int) == digits_end(b@, i as int),
            forall|k: int| p <= k < i ==> is_digit_byte(#[trigger] b@[k]),
        decreases b@.len() - i,
    {
        i = i + 1;
    }
    i
}

fn ident_end_exec(b: &[u8], p: usize) -> (r: Result<usize, usize>)
    requires
        p <= b@.len(),
    ensures
        match r {
            Ok(e) => ident_end(b@, p as int) == Ok::<int, int>(e as int) && p <= e <= b@.len(),
            Err(q) => ident_end(b@, p as int) == Err::<int, int>(q as int),
        },
{
    let mut i = p;
    while i < b.len() && ((65 <= b[i] && b[i] <= 90) || (97 <= b[i] && b[i] <= 122) || (48 <= b[i] && b[i] <= 57) || b[i] == 95 || b[i] == 58)
        invariant
            p <= i <= b@.len(),
            ident_end(b@, p as int) == ident_end(b@, i as int),
        decreases b@.len() - i,
    {
        if b[i] == 58 {
            if i + 1 >= b.len() || b[i + 1] != 58 {
                return Err(i);
            }
            i = i + 2;
        } else {
            i = i + 1;
        }
    }
    Ok(i)
}

/// The text of `b[from..to]`, one character per byte.
fn bytes_text(b: &[u8], from: usize, to: usize) -> (s: String)
    requires
        from <= to <= b@.len(),
    ensures
        s@ == bytes_chars(b@.subrange(from as int, to as int)),
{
    let mut s = String::new();
    let mut i = from;
    while i < to
        invariant
            from <= i <= to <= b@.len(),
            s@ == bytes_chars(b@.subrange(from as int, i as int)),
        decreases to - i,
    {
        push_char(&mut s, b[i] as char);
        proof {
            assert(bytes_chars(b@.subrange(from as int, i as int + 1))
                =~= bytes_chars(b@.subrange(from as int, i as int)).push(b@[i as int] as char));
        }
        i = i + 1;
    }
    s
}

fn string_body_exec(b: &[u8], p: usize, quote: u8) -> (r: Result<(String, usize), usize>)
    requires
        p <= b@.len(),
    ensures
        match string_body(b@, p as int, quote) {
            Ok((text, q)) => r matches Ok((s, e)) && s@ == text && e as int == q && p < e <= b@.len(),
            Err(q) => r matches Err(e) && e as int == q,
        },
{
    let mut out = String::new();
    let mut i = p;
    while i < b.len()
        invariant
            p <= i <= b@.len(),
            string_body(b@, p as int, quote) == match string_body(b@, i as int, quote) {
                Ok((rest, q)) => Ok((out@ + rest, q)),
                Err(e) => Err::<(Seq<char>, int), int>(e),
            },
        decreases b@.len() - i,
    {
        let c = b[i];
        if c == quote {
            proof {
                assert(out@ + Seq::<char>::empty() =~= out@);
            }
            return Ok((out, i + 1));
        }
        if c == 92 && i + 1 < b.len() {
            let e = b[i + 1];
            let ch = if e == 110 { '\n' } else if e == 116 { '\t' } else if e == 114 { '\r' } else { e as char };
            proof {
                match string_body(b@, i as int + 2, quote) {
                    Ok((rest, q)) => {
                        assert(out@.push(ch) + rest =~= out@ + (seq![ch] + rest));
                    },
                    Err(_) => {},
                }
            }
            push_char(&mut out, ch);
            i = i + 2;
        } else {
            proof {
                match string_body(b@, i as int + 1, quote) {
                    Ok((rest, q)) => {
                        assert(out@.push(c as char) + rest =~= out@ + (seq![c as char] + rest));
                    },
                    Err(_) => {},
                }
            }
            push_char(&mut out, c as char);
            i = i + 1;
        }
    }
    Err(i)
}

proof fn lemma_bytes_value_prefix(d: Seq<u8>, j: int)
    requires
        0 <= j <= d.len(),
        forall|k: int| 0 <= k < d.len() ==> is_digit_byte(#[trigger] d[k]),
    ensures
        bytes_value(d.take(j)) <= bytes_value(d),
    decreases d.len() - j,
{
    if j < d.len() {
        lemma_bytes_value_prefix(d, j + 1);
        assert(d.take(j + 1).drop_last() =~= d.take(j));
    } else {
        assert(d.take(j) =~= d);
    }
}

/// The value of the digits `b[from..to]` when it fits in an `i64`.
fn digits_i64(b: &[u8], from: usize, to: usize) -> (r: Option<i64>)
    requires
        from <= to <= b@.len(),
        forall|k: int| from <= k < to ==> is_digit_byte(#[trigger] b@[k]),
    ensures
        match r {
            Some(v) => bytes_value(b@.subrange(from as int, to as int)) <= i64::MAX
                && v as int == bytes_value(b@.subrange(from as int, to as int)),
            None => bytes_value(b@.subrange(from as int, to as int)) > i64::MAX,
        },
{
    let ghost d = b@.subrange(from as int, to as int);
    let mut v: i64 = 0;
    let mut i = from;
    while i < to
        invariant
            from <= i <= to <= b@.len(),
            d == b@.subrange(from as int, to as int),
            forall|k: int| from <= k < to ==> is_digit_byte(#[trigger] b@[k]),
            v as int == bytes_value(d.take(i - from)),
            0 <= v,
        decreases to - i,
    {
        let digit = (b[i] - 48) as i64;
        proof {
            assert(d.take(i - from + 1).drop_last() =~= d.take(i - from));
            assert(d.take(i - from + 1).last() == b@[i as int]);
        }
        if v > (i64::MAX - digit) / 10 {
            proof {
                assert(bytes_value(d.take(i - from + 1)) == v * 10 + digit);
                assert(v * 10 + digit > i64::MAX) by (nonlinear_arith)
                    requires
                        v > (i64::MAX - digit) / 10,
                        0 <= digit <= 9,
                ;
                lemma_bytes_value_prefix(d, i - from + 1);
            }
            return None;
        }
        proof {
            assert(v * 10 + digit <= i64::MAX) by (nonlinear_arith)
                requires
                    v <= (i64::MAX - digit) / 10,
                    0 <= digit <= 9,
                    0 <= v,
            ;
        }
        v = v * 10 + digit;
        i = i + 1;
    }
    proof {
        assert(d.take(to - from) =~= d);
    }
    Some(v)
}

proof fn lemma_ident_end_grows(b: Seq<u8>, q: int)
    requires
        0 <= q,
    ensures
        ident_end(b, q) matches Ok(e) ==> q <= e,
    decreases b.len() - q,
{
    if 0 <= q < b.len() && is_ident_byte(b[q]) {
        if b[q] == 58 {
            if !(q + 1 >= b.len() || b[q + 1] != 58) {
                lemma_ident_end_grows(b, q + 2);
            }
        } else {
            lemma_ident_end_grows(b, q + 1);
        }
    }
}

fn lex_error(message: &str, position: usize) -> (e: ParseError)
    ensures
        e.message@ == message@,
        e.position == position,
{
    ParseError { message: String::from_str(message), position }
}

/// Scans the token at `pos` (after whitespace); see [`lex_token`].
fn next_token(b: &[u8], pos: usize) -> (r: Result<(Token, usize), ParseError>)
    requires
        pos <= b@.len(),
    ensures
        match lex_token(b@, pos as int) {
            Ok((t, q)) => r matches Ok((tok, e)) && token_view(tok) == t && e as int == q
                && (t is Eof || pos < e <= b@.len()),
            Err((m, q)) => r matches Err(err) && err.message@ == m && err.position as int == q,
        },
{
    let p = skip_spaces_exec(b, pos);
    if p >= b.len() {
        return Ok((Token::Eof, p));
    }
    let c = b[p];
    if c == 40 {
        Ok((Token::LParen, p + 1))
    } else if c == 41 {
        Ok((Token::RParen, p + 1))
    } else if c == 91 {
        Ok((Token::LBracket, p + 1))
    } else if c == 93 {
        Ok((Token::RBracket, p + 1))
    } else if c == 44 {
        Ok((Token::Comma, p + 1))
    } else if c == 46 {
        Ok((Token::Dot, p + 1))
    } else if c == 34 || c == 39 {
        match string_body_exec(b, p + 1, c) {
            Ok((text, q)) => Ok((Token::Str(text), q)),
            Err(q) => {
                proof {
                    reveal_strlit("unterminated string literal");
                }
                Err(lex_error("unterminated string literal", q))
            },
        }
    } else if 48 <= c && c <= 57 {
        let e = digits_end_exec(b, p);
        if b.len() - e > 1 && b[e] == 46 && 48 <= b[e + 1] && b[e + 1] <= 57 {
            let f = digits_end_exec(b, e + 1);
            Ok((Token::Decimal(bytes_text(b, p, f)), f))
        } else {
            match digits_i64(b, p, e) {
                Some(v) => Ok((Token::Int(v), e)),
                None => {
                    proof {
                        reveal_strlit("invalid integer literal");
                    }
                    Err(lex_error("invalid integer literal", e))
                },
            }
        }
    } else if (65 <= c && c <= 90) || (97 <= c && c <= 122) || c == 95 {
        match ident_end_exec(b, p) {
            Ok(e) => {
                proof {
                    assert(ident_end(b@, p as int) == ident_end(b@, p as int + 1));
                    lemma_ident_end_grows(b@, p as int + 1);
                }
                Ok((Token::Ident(bytes_text(b, p, e)), e))
            },
            Err(q) => {
                proof {
                    reveal_strlit("expected '::' inside identifier");
                }
                Err(lex_error("expected '::' inside identifier", q))
            },
        }
    } else {
        let two = b.len() - p >= 2 && b[p + 1] == 61 && (c == 61 || c == 33 || c == 62 || c == 60);
        if two {
            Ok((Token::Op(bytes_text(b, p, p + 2)), p + 2))
        } else if c == 62 || c == 60 || c == 43 || c == 45 || c == 42 || c == 47 || c == 37 {
            let op = bytes_text(b, p, p + 1);
            proof {
                assert(op@ =~= seq![c as char]);
            }
            Ok((Token::Op(op), p + 1))
        } else {
            proof {
                reveal_strlit("unexpected character");
            }
            Err(lex_error("unexpected character", p))
        }
    }
}

/// Splits `src` into tokens, each with the byte offset where its scan
/// began, ending with `Eof`; or the first lexical error (see [`lex_from`]).
pub fn tokenize(src: &str) -> (r: Result<Vec<(Token, usize)>, ParseError>)
    ensures
        match lex_from(src.spec_bytes(), 0) {
            Ok(ts) => r matches Ok(v) && tokens_view(v@) == ts,
            Err((m, q)) => r matches Err(e) && e.message@ == m && e.position as int == q,
        },
{
    let b = src.as_bytes();
    let ghost bs = b@;
    let mut tokens: Vec<(Token, usize)> = Vec::new();
    let mut pos: usize = 0;
    loop
        invariant
            bs == b@,
            bs == src.spec_bytes(),
            pos <= b@.len(),
            lex_from(bs, 0) == match lex_from(bs, pos as int) {
                Ok(rest) => Ok(tokens_view(tokens@) + rest),
                Err(e) => Err::<Seq<(TokenView, int)>, (Seq<char>, int)>(e),
            },
        decreases b@.len() - pos,
    {
        let at = pos;
        match next_token(b, pos) {
            Err(e) => {
                proof {
                    assert(lex_from(bs, pos as int) == Err::<Seq<(TokenView, int)>, (Seq<char>, int)>((e.message@, e.position as int)));
                }
                return Err(e);
            },
            Ok((tok, next)) => {
                let eof = match tok {
                    Token::Eof => true,
                    _ => false,
                };
                let ghost before = tokens@;
                tokens.push((tok, at));
                proof {
                    assert(tokens_view(tokens@) =~= tokens_view(before).push((token_view(tokens@.last().0), at as int)));
                }
                if eof {
                    proof {
                        assert(token_view(tokens@.last().0) == TokenView::Eof);
                        assert(lex_from(bs, pos as int) == Ok::<Seq<(TokenView, int)>, (Seq<char>, int)>(seq![(TokenView::Eof, at as int)]));
                        assert(tokens_view(tokens@) =~= tokens_view(before) + seq![(TokenView::Eof, at as int)]);
                    }
                    return Ok(tokens);
                }
                proof {
                    match lex_from(bs, next as int) {
                        Ok(rest) => {
                            assert(tokens_view(before) + (seq![(token_view(tokens@.last().0), at as int)] + rest)
                                =~= tokens_view(tokens@) + rest);
                        },
                        Err(_) => {},
                    }
                }
                pos = next;
            },
        }
    }
}

/// The content of an expression.
pub enum ExprView {
    Value(ValueView),
    Field(Seq<SegmentView>),
    Binary(Box<ExprView>, BinaryOp, Box<ExprView>),
    Unary(UnaryOp, Box<ExprView>),
    Function(Seq<char>, Seq<ExprView>),
    Subquery,
}

pub open spec fn expr_view(e: LogicalExpr) -> ExprView
    decreases e, 1int,
{
    match e {
        LogicalExpr::Value(v) => ExprView::Value(v@),
        LogicalExpr::Field(p) => ExprView::Field(p.segments@.map_values(|s: FieldSegment| segment_view(s))),
        LogicalExpr::Binary { left, op, right } => ExprView::Binary(Box::new(expr_view(*left)), op, Box::new(expr_view(*right))),
        LogicalExpr::Unary { op, expr } => ExprView::Unary(op, Box::new(expr_view(*expr))),
        LogicalExpr::Function { name, args } => ExprView::Function(name@, exprs_view(args@)),
        LogicalExpr::Subquery(_) => ExprView::Subquery,
    }
}

pub open spec fn exprs_view(es: Seq<LogicalExpr>) -> Seq<ExprView>
    decreases es, 0int,
{
    if es.len() == 0 {
        Seq::empty()
    } else {
        exprs_view(es.drop_last()).push(expr_view(es.last()))
    }
}

pub proof fn lemma_exprs_view(es: Seq<LogicalExpr>)
    ensures
        exprs_view(es).len() == es.len(),
        forall|i: int| 0 <= i < es.len() ==> #[trigger] exprs_view(es)[i] == expr_view(es[i]),
    decreases es.len(),
{
    if es.len() > 0 {
        lemma_exprs_view(es.drop_last());
    }
}

/// A token in debug form, as error messages show it.
pub open spec fn token_debug(t: TokenView) -> Seq<char> {
    match t {
        TokenView::Int(i) => "Int("@ + signed_decimal(i) + ")"@,
        TokenView::Decimal(text) => "Decimal("@ + quoted(text) + ")"@,
        TokenView::Float(_, shown) => "Float("@ + shown + ")"@,
        TokenView::Str(s) => "Str("@ + quoted(s) + ")"@,
        TokenView::Ident(s) => "Ident("@ + quoted(s) + ")"@,
        TokenView::Op(s) => "Op("@ + quoted(s) + ")"@,
        TokenView::LParen => "LParen"@,
        TokenView::RParen => "RParen"@,
        TokenView::LBracket => "LBracket"@,
        TokenView::RBracket => "RBracket"@,
        TokenView::Comma => "Comma"@,
        TokenView::Dot => "Dot"@,
        TokenView::Eof => "Eof"@,
    }
}

/// A token stream the grammar reads: it ends with its only `Eof`, and every
/// decimal literal has been given its value.
pub open spec fn well_formed(ts: Seq<(TokenView, int)>) -> bool {
    &&& 0 < ts.len() <= usize::MAX
    &&& ts.last().0 is Eof
    &&& forall|j: int| 0 <= j < ts.len() - 1 ==> !(#[trigger] ts[j].0 is Eof)
    &&& forall|j: int| 0 <= j < ts.len() ==> !(#[trigger] ts[j].0 is Decimal)
}

/// The result of reading from a token: an expression and the index after
/// it, or an error message and offset.
pub type Parsed = Result<(ExprView, int), (Seq<char>, int)>;

/// The index after the token at `i` (the last token is never passed).
pub open spec fn bump(ts: Seq<(TokenView, int)>, i: int) -> int {
    if ts.len() - i > 1 { i + 1 } else { i }
}

/// The error that shows the token at `i` after `what`.
pub open spec fn found(ts: Seq<(TokenView, int)>, i: int, what: Seq<char>) -> Parsed {
    Err((what + token_debug(ts[i].0), ts[i].1))
}

pub open spec fn is_keyword(ts: Seq<(TokenView, int)>, i: int, word: Seq<char>) -> bool {
    0 <= i < ts.len() && ts[i].0 == TokenView::Ident(word)
}

pub open spec fn is_op(ts: Seq<(TokenView, int)>, i: int, op: Seq<char>) -> bool {
    0 <= i < ts.len() && ts[i].0 == TokenView::Op(op)
}

/// `or`-separated conjunctions, grouped to the left.
pub open spec fn parse_or_at(ts: Seq<(TokenView, int)>, i: int) -> Parsed
    decreases ts.len() - i, 14int,
{
    match parse_and_at(ts, i) {
        Ok((left, j)) => if j < i || j > ts.len() { Err((Seq::empty(), j)) } else { or_tail(ts, j, left) },
        Err(e) => Err(e),
    }
}

pub open spec fn or_tail(ts: Seq<(TokenView, int)>, j: int, left: ExprView) -> Parsed
    decreases ts.len() - j, 13int,
{
    if is_keyword(ts, j, "or"@) && j + 1 < ts.len() {
        match parse_and_at(ts, j + 1) {
            Ok((right, k)) => if k <= j || k > ts.len() { Err((Seq::empty(), k)) } else {
                or_tail(ts, k, ExprView::Binary(Box::new(left), BinaryOp::Or, Box::new(right)))
            },
            Err(e) => Err(e),
        }
    } else {
        Ok((left, j))
    }
}

/// `and`-separated comparisons, grouped to the left.
pub open spec fn parse_and_at(ts: Seq<(TokenView, int)>, i: int) -> Parsed
    decreases ts.len() - i, 12int,
{
    match parse_comparison_at(ts, i) {
        Ok((left, j)) => if j < i || j > ts.len() { Err((Seq::empty(), j)) } else { and_tail(ts, j, left) },
        Err(e) => Err(e),
    }
}

pub open spec fn and_tail(ts: Seq<(TokenView, int)>, j: int, left: ExprView) -> Parsed
    decreases ts.len() - j, 11int,
{
    if is_keyword(ts, j, "and"@) && j + 1 < ts.len() {
        match parse_comparison_at(ts, j + 1) {
            Ok((right, k)) => if k <= j || k > ts.len() { Err((Seq::empty(), k)) } else {
                and_tail(ts, k, ExprView::Binary(Box::new(left), BinaryOp::And, Box::new(right)))
            },
            Err(e) => Err(e),
        }
    } else {
        Ok((left, j))
    }
}

/// The comparison operator at `i`, if any: a comparison symbol, or the
/// keywords `in` and `contains`.
pub open spec fn comparison_at(ts: Seq<(TokenView, int)>, i: int) -> Option<BinaryOp> {
    if is_op(ts, i, "=="@) { Some(BinaryOp::Eq) }
    else if is_op(ts, i, "!="@) { Some(BinaryOp::Ne) }
    else if is_op(ts, i, ">="@) { Some(BinaryOp::Ge) }
    else if is_op(ts, i, "<="@) { Some(BinaryOp::Le) }
    else if is_op(ts, i, ">"@) { Some(BinaryOp::Gt) }
    else if is_op(ts, i, "<"@) { Some(BinaryOp::Lt) }
    else if is_keyword(ts, i, "in"@) { Some(BinaryOp::In) }
    else if is_keyword(ts, i, "contains"@) { Some(BinaryOp::Contains) }
    else { None }
}


/// The token that writes operator `op`: a word or a symbol.
pub open spec fn operator_token(op: BinaryOp) -> TokenView {
    if op.is_word() { TokenView::Ident(op.symbol()) } else { TokenView::Op(op.symbol()) }
}

/// Each comparison token stands for its own operator: the comparison read
/// at `i` is the comparison operator written by the token there, and a
/// token that writes no comparison operator reads as none.
pub proof fn lemma_comparison_tokens(ts: Seq<(TokenView, int)>, i: int)
    requires
        0 <= i < ts.len(),
    ensures
        forall|op: BinaryOp| op.is_comparison() && ts[i].0 == operator_token(op) ==> comparison_at(ts, i) == Some(op),
        match comparison_at(ts, i) {
            Some(op) => op.is_comparison() && ts[i].0 == operator_token(op),
            None => forall|op: BinaryOp| op.is_comparison() ==> ts[i].0 != operator_token(op),
        },
{
    reveal_strlit("==");
    reveal_strlit("!=");
    reveal_strlit(">=");
    reveal_strlit("<=");
    reveal_strlit(">");
    reveal_strlit("<");
    reveal_strlit("in");
    reveal_strlit("contains");
    assert forall|op: BinaryOp| op.is_comparison() && ts[i].0 == operator_token(op) implies comparison_at(ts, i) == Some(op) by {
        match op {
            BinaryOp::Eq => {},
            BinaryOp::Ne => {
                assert("!="@ != "=="@) by { assert("!="@[0] != "=="@[0]); }
            },
            BinaryOp::Ge => {
                assert(">="@ != "=="@) by { assert(">="@[0] != "=="@[0]); }
                assert(">="@ != "!="@) by { assert(">="@[0] != "!="@[0]); }
            },
            BinaryOp::Le => {
                assert("<="@ != "=="@) by { assert("<="@[0] != "=="@[0]); }
                assert("<="@ != "!="@) by { assert("<="@[0] != "!="@[0]); }
                assert("<="@ != ">="@) by { assert("<="@[0] != ">="@[0]); }
            },
            BinaryOp::Gt => {
                assert(">"@ != "=="@) by { assert(">"@.len() != "=="@.len()); }
                assert(">"@ != "!="@) by { assert(">"@.len() != "!="@.len()); }
                assert(">"@ != ">="@) by { assert(">"@.len() != ">="@.len()); }
                assert(">"@ != "<="@) by { assert(">"@.len() != "<="@.len()); }
            },
            BinaryOp::Lt => {
                assert("<"@ != "=="@) by { assert("<"@.len() != "=="@.len()); }
                assert("<"@ != "!="@) by { assert("<"@.len() != "!="@.len()); }
                assert("<"@ != ">="@) by { assert("<"@[0] != ">="@[0]); }
                assert("<"@ != "<="@) by { assert("<"@.len() != "<="@.len()); }
                assert("<"@ != ">"@) by { assert("<"@[0] != ">"@[0]); }
            },
            BinaryOp::In => {},
            BinaryOp::Contains => {
                assert("contains"@ != "in"@) by { assert("contains"@.len() != "in"@.len()); }
            },
            _ => {},
        }
    }
}

/// A comparison reads as its two sums joined by the operator its token
/// writes: when a sum `left` ends at `j`, the token at `j` writes the
/// comparison operator `op`, and a sum `right` follows, the comparison is
/// `left op right`.
pub proof fn lemma_comparison_parse(ts: Seq<(TokenView, int)>, i: int, j: int, k: int, op: BinaryOp, left: ExprView, right: ExprView)
    requires
        parse_additive_at(ts, i) == Ok::<(ExprView, int), (Seq<char>, int)>((left, j)),
        i <= j,
        j + 1 < ts.len(),
        op.is_comparison(),
        ts[j].0 == operator_token(op),
        parse_additive_at(ts, j + 1) == Ok::<(ExprView, int), (Seq<char>, int)>((right, k)),
    ensures
        parse_comparison_at(ts, i) == Ok::<(ExprView, int), (Seq<char>, int)>((ExprView::Binary(Box::new(left), op, Box::new(right)), k)),
{
    lemma_comparison_tokens(ts, j);
}


/// A sum continues with the operator its `+` or `-` token writes: after
/// `left`, the token at `j` writing `Add` or `Sub` and a product `right`
/// ending at `k` make `left op right`, which the sum continues from.
pub proof fn lemma_additive_step(ts: Seq<(TokenView, int)>, j: int, k: int, op: BinaryOp, left: ExprView, right: ExprView)
    requires
        op == BinaryOp::Add || op == BinaryOp::Sub,
        0 <= j,
        j + 1 < ts.len(),
        ts[j].0 == operator_token(op),
        parse_multiplicative_at(ts, j + 1) == Ok::<(ExprView, int), (Seq<char>, int)>((right, k)),
        j < k <= ts.len(),
    ensures
        additive_tail(ts, j, left) == additive_tail(ts, k, ExprView::Binary(Box::new(left), op, Box::new(right))),
{
    reveal_strlit("+");
    reveal_strlit("-");
    assert("-"@ != "+"@) by { assert("-"@[0] != "+"@[0]); }
}

/// A product continues with the operator its `*`, `/` or `%` token writes.
pub proof fn lemma_multiplicative_step(ts: Seq<(TokenView, int)>, j: int, k: int, op: BinaryOp, left: ExprView, right: ExprView)
    requires
        op == BinaryOp::Mul || op == BinaryOp::Div || op == BinaryOp::Mod,
        0 <= j,
        j + 1 < ts.len(),
        ts[j].0 == operator_token(op),
        parse_unary_at(ts, j + 1) == Ok::<(ExprView, int), (Seq<char>, int)>((right, k)),
        j < k <= ts.len(),
    ensures
        multiplicative_tail(ts, j, left) == multiplicative_tail(ts, k, ExprView::Binary(Box::new(left), op, Box::new(right))),
{
    reveal_strlit("*");
    reveal_strlit("/");
    reveal_strlit("%");
    assert("/"@ != "*"@) by { assert("/"@[0] != "*"@[0]); }
    assert("%"@ != "*"@) by { assert("%"@[0] != "*"@[0]); }
    assert("%"@ != "/"@) by { assert("%"@[0] != "/"@[0]); }
}

/// A conjunction continues with `and`, a disjunction with `or`: the keyword
/// at `j` joins what precedes and what follows with its operator.
pub proof fn lemma_logical_steps(ts: Seq<(TokenView, int)>, j: int, k: int, left: ExprView, right: ExprView)
    requires
        0 <= j,
        j + 1 < ts.len(),
        j < k <= ts.len(),
    ensures
        ts[j].0 == operator_token(BinaryOp::And) && parse_comparison_at(ts, j + 1) == Ok::<(ExprView, int), (Seq<char>, int)>(
            (right, k),
        ) ==> and_tail(ts, j, left) == and_tail(ts, k, ExprView::Binary(Box::new(left), BinaryOp::And, Box::new(right))),
        ts[j].0 == operator_token(BinaryOp::Or) && parse_and_at(ts, j + 1) == Ok::<(ExprView, int), (Seq<char>, int)>(
            (right, k),
        ) ==> or_tail(ts, j, left) == or_tail(ts, k, ExprView::Binary(Box::new(left), BinaryOp::Or, Box::new(right))),
{
    reveal_strlit("and");
    reveal_strlit("or");
}

/// `not` and `-` in front of a term negate it logically and numerically.
pub proof fn lemma_unary_steps(ts: Seq<(TokenView, int)>, i: int, k: int, e: ExprView)
    requires
        0 <= i,
        i + 1 < ts.len(),
        parse_unary_at(ts, i + 1) == Ok::<(ExprView, int), (Seq<char>, int)>((e, k)),
    ensures
        ts[i].0 == TokenView::Ident("not"@) ==> parse_unary_at(ts, i) == Ok::<(ExprView, int), (Seq<char>, int)>(
            (ExprView::Unary(UnaryOp::Not, Box::new(e)), k),
        ),
        ts[i].0 == TokenView::Op("-"@) ==> parse_unary_at(ts, i) == Ok::<(ExprView, int), (Seq<char>, int)>(
            (ExprView::Unary(UnaryOp::Neg, Box::new(e)), k),
        ),
{
}

/// A sum, optionally compared with one more sum.
pub open spec fn parse_comparison_at(ts: Seq<(TokenView, int)>, i: int) -> Parsed
    decreases ts.len() - i, 10int,
{
    match parse_additive_at(ts, i) {
        Ok((left, j)) => if j < i || j > ts.len() { Err((Seq::empty(), j)) } else {
            match comparison_at(ts, j) {
                Some(op) => if j + 1 < ts.len() {
                    match parse_additive_at(ts, j + 1) {
                        Ok((right, k)) => Ok((ExprView::Binary(Box::new(left), op, Box::new(right)), k)),
                        Err(e) => Err(e),
                    }
                } else {
                    Err((Seq::empty(), j))
                },
                None => Ok((left, j)),
            }
        },
        Err(e) => Err(e),
    }
}

/// Products joined by `+` and `-`, grouped to the left.
pub open spec fn parse_additive_at(ts: Seq<(TokenView, int)>, i: int) -> Parsed
    decreases ts.len() - i, 9int,
{
    match parse_multiplicative_at(ts, i) {
        Ok((left, j)) => if j < i || j > ts.len() { Err((Seq::empty(), j)) } else { additive_tail(ts, j, left) },
        Err(e) => Err(e),
    }
}

pub open spec fn additive_tail(ts: Seq<(TokenView, int)>, j: int, left: ExprView) -> Parsed
    decreases ts.len() - j, 8int,
{
    if (is_op(ts, j, "+"@) || is_op(ts, j, "-"@)) && j + 1 < ts.len() {
        let op = if is_op(ts, j, "+"@) { BinaryOp::Add } else { BinaryOp::Sub };
        match parse_multiplicative_at(ts, j + 1) {
            Ok((right, k)) => if k <= j || k > ts.len() { Err((Seq::empty(), k)) } else {
                additive_tail(ts, k, ExprView::Binary(Box::new(left), op, Box::new(right)))
            },
            Err(e) => Err(e),
        }
    } else {
        Ok((left, j))
    }
}

/// Unary terms joined by `*`, `/` and `%`, grouped to the left.
pub open spec fn parse_multiplicative_at(ts: Seq<(TokenView, int)>, i: int) -> Parsed
    decreases ts.len() - i, 7int,
{
    match parse_unary_at(ts, i) {
        Ok((left, j)) => if j < i || j > ts.len() { Err((Seq::empty(), j)) } else { multiplicative_tail(ts, j, left) },
        Err(e) => Err(e),
    }
}

pub open spec fn multiplicative_tail(ts: Seq<(TokenView, int)>, j: int, left: ExprView) -> Parsed
    decreases ts.len() - j, 6int,
{
    if (is_op(ts, j, "*"@) || is_op(ts, j, "/"@) || is_op(ts, j, "%"@)) && j + 1 < ts.len() {
        let op = if is_op(ts, j, "*"@) { BinaryOp::Mul } else if is_op(ts, j, "/"@) { BinaryOp::Div } else { BinaryOp::Mod };
        match parse_unary_at(ts, j + 1) {
            Ok((right, k)) => if k <= j || k > ts.len() { Err((Seq::empty(), k)) } else {
                multiplicative_tail(ts, k, ExprView::Binary(Box::new(left), op, Box::new(right)))
            },
            Err(e) => Err(e),
        }
    } else {
        Ok((left, j))
    }
}

/// `not` and `-` applied to a unary term, or a primary term.
pub open spec fn parse_unary_at(ts: Seq<(TokenView, int)>, i: int) -> Parsed
    decreases ts.len() - i, 5int,
{
    if is_keyword(ts, i, "not"@) && i + 1 < ts.len() {
        match parse_unary_at(ts, i + 1) {
            Ok((e, k)) => Ok((ExprView::Unary(UnaryOp::Not, Box::new(e)), k)),
            Err(e) => Err(e),
        }
    } else if is_op(ts, i, "-"@) && i + 1 < ts.len() {
        match parse_unary_at(ts, i + 1) {
            Ok((e, k)) => Ok((ExprView::Unary(UnaryOp::Neg, Box::new(e)), k)),
            Err(e) => Err(e),
        }
    } else {
        parse_primary_at(ts, i)
    }
}

/// A literal, a parenthesized expression, a function call or a field path.
pub open spec fn parse_primary_at(ts: Seq<(TokenView, int)>, i: int) -> Parsed
    decreases ts.len() - i, 4int,
{
    if i < 0 || i >= ts.len() {
        Err((Seq::empty(), i))
    } else {
        match ts[i].0 {
            TokenView::Int(v) => Ok((ExprView::Value(ValueView::Int(v)), bump(ts, i))),
            TokenView::Float(bits, _) => Ok((ExprView::Value(ValueView::Float(bits)), bump(ts, i))),
            TokenView::Str(s) => Ok((ExprView::Value(ValueView::String(s)), bump(ts, i))),
            TokenView::LParen => if i + 1 < ts.len() {
                match parse_or_at(ts, i + 1) {
                    Ok((e, k)) => if 0 <= k < ts.len() {
                        if ts[k].0 is RParen { Ok((e, bump(ts, k))) } else { found(ts, k, "expected ')', found "@) }
                    } else {
                        Err((Seq::empty(), k))
                    },
                    Err(e) => Err(e),
                }
            } else {
                Err((Seq::empty(), i))
            },
            TokenView::Ident(name) => if i + 1 < ts.len() {
                if ts[i + 1].0 is LParen {
                    if i + 2 < ts.len() {
                        if ts[i + 2].0 is RParen {
                            Ok((ExprView::Function(name, Seq::empty()), bump(ts, i + 2)))
                        } else {
                            match arguments(ts, i + 2, Seq::empty()) {
                                Ok((args, k)) => Ok((ExprView::Function(name, args), bump(ts, k))),
                                Err(e) => Err(e),
                            }
                        }
                    } else {
                        Err((Seq::empty(), i))
                    }
                } else {
                    path_tail(ts, i + 1, seq![SegmentView::Field(name)])
                }
            } else {
                Err((Seq::empty(), i))
            },
            other => Err(("unexpected token "@ + token_debug(other), ts[i].1)),
        }
    }
}

/// The arguments of a call from `i` on, after `acc`: expressions separated
/// by commas up to the closing parenthesis, whose index comes back.
pub open spec fn arguments(ts: Seq<(TokenView, int)>, i: int, acc: Seq<ExprView>) -> Result<(Seq<ExprView>, int), (Seq<char>, int)>
    decreases ts.len() - i, 15int,
{
    if i < 0 || i >= ts.len() {
        Err((Seq::empty(), i))
    } else {
        match parse_or_at(ts, i) {
            Ok((a, k)) => if k < i || k >= ts.len() { Err((Seq::empty(), k)) } else {
                match ts[k].0 {
                    TokenView::Comma => if k + 1 < ts.len() { arguments(ts, k + 1, acc.push(a)) } else { Err((Seq::empty(), k)) },
                    TokenView::RParen => Ok((acc.push(a), k)),
                    other => Err(("expected ',' or ')' in argument list, found "@ + token_debug(other), ts[k].1)),
                }
            },
            Err(e) => Err(e),
        }
    }
}

/// The rest of a field path from `i` on, after the segments `segs`: `.name`
/// and `[index]` steps.
pub open spec fn path_tail(ts: Seq<(TokenView, int)>, i: int, segs: Seq<SegmentView>) -> Parsed
    decreases ts.len() - i, 2int,
{
    if i < 0 || i >= ts.len() {
        Err((Seq::empty(), i))
    } else {
        match ts[i].0 {
            TokenView::Dot => if i + 1 < ts.len() {
                match ts[i + 1].0 {
                    TokenView::Ident(seg) => if i + 2 < ts.len() {
                        path_tail(ts, i + 2, segs.push(SegmentView::Field(seg)))
                    } else {
                        Err((Seq::empty(), i))
                    },
                    other => found(ts, i + 1, "expected identifier, found "@),
                }
            } else {
                Err((Seq::empty(), i))
            },
            TokenView::LBracket => if i + 1 < ts.len() {
                match ts[i + 1].0 {
                    TokenView::Int(n) => if n >= 0 && i + 2 < ts.len() {
                        if ts[i + 2].0 is RBracket {
                            if i + 3 < ts.len() {
                                path_tail(ts, i + 3, segs.push(SegmentView::Index(n as usize)))
                            } else {
                                Err((Seq::empty(), i))
                            }
                        } else {
                            found(ts, i + 2, "expected ']', found "@)
                        }
                    } else if n >= 0 {
                        Err((Seq::empty(), i))
                    } else {
                        found(ts, i + 1, "expected list index, found "@)
                    },
                    other => found(ts, i + 1, "expected list index, found "@),
                }
            } else {
                Err((Seq::empty(), i))
            },
            _ => Ok((ExprView::Field(segs), i)),
        }
    }
}

/// An expression filling the whole token stream.
pub open spec fn parse_all(ts: Seq<(TokenView, int)>) -> Result<ExprView, (Seq<char>, int)> {
    match parse_or_at(ts, 0) {
        Ok((e, k)) => if 0 <= k < ts.len() && ts[k].0 is Eof {
            Ok(e)
        } else if 0 <= k < ts.len() {
            Err(("unexpected trailing input near "@ + token_debug(ts[k].0), ts[k].1))
        } else {
            Err((Seq::empty(), k))
        },
        Err(e) => Err(e),
    }
}

/// A token in debug form (see [`token_debug`]).
fn debug_token(t: &Token) -> (s: String)
    ensures
        s@ == token_debug(token_view(*t)),
{
    match t {
        Token::Int(i) => {
            let mut s = String::from_str("Int(");
            append_signed(&mut s, *i);
            s.append(")");
            s
        },
        Token::Decimal(text) => {
            let mut s = String::from_str("Decimal(");
            let q = debug_quote(text.as_str());
            s.append(q.as_str());
            s.append(")");
            s
        },
        Token::Float(_, shown) => {
            let mut s = String::from_str("Float(");
            s.append(shown.as_str());
            s.append(")");
            s
        },
        Token::Str(text) => {
            let mut s = String::from_str("Str(");
            let q = debug_quote(text.as_str());
            s.append(q.as_str());
            s.append(")");
            s
        },
        Token::Ident(text) => {
            let mut s = String::from_str("Ident(");
            let q = debug_quote(text.as_str());
            s.append(q.as_str());
            s.append(")");
            s
        },
        Token::Op(text) => {
            let mut s = String::from_str("Op(");
            let q = debug_quote(text.as_str());
            s.append(q.as_str());
            s.append(")");
            s
        },
        Token::LParen => String::from_str("LParen"),
        Token::RParen => String::from_str("RParen"),
        Token::LBracket => String::from_str("LBracket"),
        Token::RBracket => String::from_str("RBracket"),
        Token::Comma => String::from_str("Comma"),
        Token::Dot => String::from_str("Dot"),
        Token::Eof => String::from_str("Eof"),
    }
}

/// The error showing the token at `i` after `what`.
fn found_error(ts: &Vec<(Token, usize)>, i: usize, what: &str) -> (e: ParseError)
    requires
        i < ts@.len(),
    ensures
        found(tokens_view(ts@), i as int, what@) == Err::<(ExprView, int), (Seq<char>, int)>((e.message@, e.position as int)),
{
    let mut message = String::from_str(what);
    let d = debug_token(&ts[i].0);
    message.append(d.as_str());
    ParseError { message, position: ts[i].1 }
}

fn keyword_at(ts: &Vec<(Token, usize)>, i: usize, word: &str) -> (b: bool)
    requires
        i < ts@.len(),
    ensures
        b == is_keyword(tokens_view(ts@), i as int, word@),
{
    match &ts[i].0 {
        Token::Ident(name) => same_text(name.as_str(), word),
        _ => false,
    }
}

fn op_at(ts: &Vec<(Token, usize)>, i: usize, op: &str) -> (b: bool)
    requires
        i < ts@.len(),
    ensures
        b == is_op(tokens_view(ts@), i as int, op@),
{
    match &ts[i].0 {
        Token::Op(o) => same_text(o.as_str(), op),
        _ => false,
    }
}

proof fn lemma_tokens_view(ts: Seq<(Token, usize)>)
    ensures
        tokens_view(ts).len() == ts.len(),
        forall|i: int| 0 <= i < ts.len() ==> #[trigger] tokens_view(ts)[i] == (token_view(ts[i].0), ts[i].1 as int),
{
}

/// Under a well-formed stream, a token other than `Eof` is not the last.
proof fn lemma_not_last(ts: Seq<(TokenView, int)>, i: int)
    requires
        well_formed(ts),
        0 <= i < ts.len(),
        !(ts[i].0 is Eof),
    ensures
        i + 1 < ts.len(),
{
}

/// No part of the expression is a subquery.
pub open spec fn subquery_free(e: ExprView) -> bool
    decreases e, 1int,
{
    match e {
        ExprView::Subquery => false,
        ExprView::Binary(left, _, right) => subquery_free(*left) && subquery_free(*right),
        ExprView::Unary(_, inner) => subquery_free(*inner),
        ExprView::Function(_, args) => all_subquery_free(args),
        _ => true,
    }
}

pub open spec fn all_subquery_free(args: Seq<ExprView>) -> bool
    decreases args, 0int,
{
    args.len() == 0 || (all_subquery_free(args.drop_last()) && subquery_free(args.last()))
}

/// A successful parse step yields no subquery.
pub open spec fn yields_plain(r: Result<(LogicalExpr, usize), ParseError>) -> bool {
    r matches Ok((x, _)) ==> subquery_free(expr_view(x))
}

/// The result of a parse step and the index it ends at.
pub open spec fn step_matches(r: Result<(LogicalExpr, usize), ParseError>, spec: Parsed, i: int, len: int) -> bool {
    &&& match spec {
        Ok((e, k)) => r matches Ok((x, k2)) && expr_view(x) == e && k2 as int == k,
        Err((m, q)) => r matches Err(err) && err.message@ == m && err.position as int == q,
    }
    &&& r matches Ok((_, k)) ==> i <= k < len
}

fn parse_or(ts: &Vec<(Token, usize)>, i: usize) -> (r: Result<(LogicalExpr, usize), ParseError>)
    requires
        well_formed(tokens_view(ts@)),
        i < ts@.len(),
    ensures
        step_matches(r, parse_or_at(tokens_view(ts@), i as int), i as int, ts@.len() as int),
        yields_plain(r),
    decreases ts@.len() - i, 14int,
{
    let ghost tv = tokens_view(ts@);
    proof {
        lemma_tokens_view(ts@);
    }
    let (mut left, mut j) = match parse_and(ts, i) {
        Ok(x) => x,
        Err(e) => return Err(e),
    };
    proof {
        assert(parse_or_at(tv, i as int) == or_tail(tv, j as int, expr_view(left)));
    }
    loop
        invariant
            tv == tokens_view(ts@),
            subquery_free(expr_view(left)),
            well_formed(tv),
            i <= j < ts@.len(),
            parse_or_at(tv, i as int) == or_tail(tv, j as int, expr_view(left)),
        ensures
            i <= j < ts@.len(),
            parse_or_at(tv, i as int) == Ok::<(ExprView, int), (Seq<char>, int)>((expr_view(left), j as int)),
        decreases ts@.len() - j,
    {
        if !keyword_at(ts, j, "or") {
            proof {
                assert(or_tail(tv, j as int, expr_view(left)) == Ok::<(ExprView, int), (Seq<char>, int)>((expr_view(left), j as int)));
            }
            break;
        }
        proof {
            lemma_not_last(tv, j as int);
        }
        match parse_and(ts, j + 1) {
            Ok((right, k)) => {
                left = LogicalExpr::Binary { left: Box::new(left), op: BinaryOp::Or, right: Box::new(right) };
                j = k;
            },
            Err(e) => return Err(e),
        }
    }
    Ok((left, j))
}

fn parse_and(ts: &Vec<(Token, usize)>, i: usize) -> (r: Result<(LogicalExpr, usize), ParseError>)
    requires
        well_formed(tokens_view(ts@)),
        i < ts@.len(),
    ensures
        step_matches(r, parse_and_at(tokens_view(ts@), i as int), i as int, ts@.len() as int),
        yields_plain(r),
    decreases ts@.len() - i, 12int,
{
    let ghost tv = tokens_view(ts@);
    proof {
        lemma_tokens_view(ts@);
    }
    let (mut left, mut j) = match parse_comparison(ts, i) {
        Ok(x) => x,
        Err(e) => return Err(e),
    };
    proof {
        assert(parse_and_at(tv, i as int) == and_tail(tv, j as int, expr_view(left)));
    }
    loop
        invariant
            tv == tokens_view(ts@),
            subquery_free(expr_view(left)),
            well_formed(tv),
            i <= j < ts@.len(),
            parse_and_at(tv, i as int) == and_tail(tv, j as int, expr_view(left)),
        ensures
            i <= j < ts@.len(),
            parse_and_at(tv, i as int) == Ok::<(ExprView, int), (Seq<char>, int)>((expr_view(left), j as int)),
        decreases ts@.len() - j,
    {
        if !keyword_at(ts, j, "and") {
            proof {
                assert(and_tail(tv, j as int, expr_view(left)) == Ok::<(ExprView, int), (Seq<char>, int)>((expr_view(left), j as int)));
            }
            break;
        }
        proof {
            lemma_not_last(tv, j as int);
        }
        match parse_comparison(ts, j + 1) {
            Ok((right, k)) => {
                left = LogicalExpr::Binary { left: Box::new(left), op: BinaryOp::And, right: Box::new(right) };
                j = k;
            },
            Err(e) => return Err(e),
        }
    }
    Ok((left, j))
}

fn comparison_op(ts: &Vec<(Token, usize)>, j: usize) -> (r: Option<BinaryOp>)
    requires
        j < ts@.len(),
    ensures
        r == comparison_at(tokens_view(ts@), j as int),
{
    if op_at(ts, j, "==") {
        Some(BinaryOp::Eq)
    } else if op_at(ts, j, "!=") {
        Some(BinaryOp::Ne)
    } else if op_at(ts, j, ">=") {
        Some(BinaryOp::Ge)
    } else if op_at(ts, j, "<=") {
        Some(BinaryOp::Le)
    } else if op_at(ts, j, ">") {
        Some(BinaryOp::Gt)
    } else if op_at(ts, j, "<") {
        Some(BinaryOp::Lt)
    } else if keyword_at(ts, j, "in") {
        Some(BinaryOp::In)
    } else if keyword_at(ts, j, "contains") {
        Some(BinaryOp::Contains)
    } else {
        None
    }
}

fn parse_comparison(ts: &Vec<(Token, usize)>, i: usize) -> (r: Result<(LogicalExpr, usize), ParseError>)
    requires
        well_formed(tokens_view(ts@)),
        i < ts@.len(),
    ensures
        step_matches(r, parse_comparison_at(tokens_view(ts@), i as int), i as int, ts@.len() as int),
        yields_plain(r),
    decreases ts@.len() - i, 10int,
{
    let ghost tv = tokens_view(ts@);
    proof {
        lemma_tokens_view(ts@);
    }
    let (left, j) = match parse_additive(ts, i) {
        Ok(x) => x,
        Err(e) => return Err(e),
    };
    match comparison_op(ts, j) {
        Some(op) => {
            proof {
                lemma_not_last(tv, j as int);
            }
            match parse_additive(ts, j + 1) {
                Ok((right, k)) => Ok((LogicalExpr::Binary { left: Box::new(left), op, right: Box::new(right) }, k)),
                Err(e) => Err(e),
            }
        },
        None => Ok((left, j)),
    }
}

fn parse_additive(ts: &Vec<(Token, usize)>, i: usize) -> (r: Result<(LogicalExpr, usize), ParseError>)
    requires
        well_formed(tokens_view(ts@)),
        i < ts@.len(),
    ensures
        step_matches(r, parse_additive_at(tokens_view(ts@), i as int), i as int, ts@.len() as int),
        yields_plain(r),
    decreases ts@.len() - i, 9int,
{
    let ghost tv = tokens_view(ts@);
    proof {
        lemma_tokens_view(ts@);
    }
    let (mut left, mut j) = match parse_multiplicative(ts, i) {
        Ok(x) => x,
        Err(e) => return Err(e),
    };
    proof {
        assert(parse_additive_at(tv, i as int) == additive_tail(tv, j as int, expr_view(left)));
    }
    loop
        invariant
            tv == tokens_view(ts@),
            subquery_free(expr_view(left)),
            well_formed(tv),
            i <= j < ts@.len(),
            parse_additive_at(tv, i as int) == additive_tail(tv, j as int, expr_view(left)),
        ensures
            i <= j < ts@.len(),
            parse_additive_at(tv, i as int) == Ok::<(ExprView, int), (Seq<char>, int)>((expr_view(left), j as int)),
        decreases ts@.len() - j,
    {
        let plus = op_at(ts, j, "+");
        if !plus && !op_at(ts, j, "-") {
            proof {
                assert(additive_tail(tv, j as int, expr_view(left)) == Ok::<(ExprView, int), (Seq<char>, int)>((expr_view(left), j as int)));
            }
            break;
        }
        proof {
            lemma_not_last(tv, j as int);
        }
        let op = if plus { BinaryOp::Add } else { BinaryOp::Sub };
        match parse_multiplicative(ts, j + 1) {
            Ok((right, k)) => {
                left = LogicalExpr::Binary { left: Box::new(left), op, right: Box::new(right) };
                j = k;
            },
            Err(e) => return Err(e),
        }
    }
    Ok((left, j))
}

fn parse_multiplicative(ts: &Vec<(Token, usize)>, i: usize) -> (r: Result<(LogicalExpr, usize), ParseError>)
    requires
        well_formed(tokens_view(ts@)),
        i < ts@.len(),
    ensures
        step_matches(r, parse_multiplicative_at(tokens_view(ts@), i as int), i as int, ts@.len() as int),
        yields_plain(r),
    decreases ts@.len() - i, 7int,
{
    let ghost tv = tokens_view(ts@);
    proof {
        lemma_tokens_view(ts@);
    }
    let (mut left, mut j) = match parse_unary(ts, i) {
        Ok(x) => x,
        Err(e) => return Err(e),
    };
    proof {
        assert(parse_multiplicative_at(tv, i as int) == multiplicative_tail(tv, j as int, expr_view(left)));
    }
    loop
        invariant
            tv == tokens_view(ts@),
            subquery_free(expr_view(left)),
            well_formed(tv),
            i <= j < ts@.len(),
            parse_multiplicative_at(tv, i as int) == multiplicative_tail(tv, j as int, expr_view(left)),
        ensures
            i <= j < ts@.len(),
            parse_multiplicative_at(tv, i as int) == Ok::<(ExprView, int), (Seq<char>, int)>((expr_view(left), j as int)),
        decreases ts@.len() - j,
    {
        let times = op_at(ts, j, "*");
        let divide = op_at(ts, j, "/");
        if !times && !divide && !op_at(ts, j, "%") {
            proof {
                assert(multiplicative_tail(tv, j as int, expr_view(left)) == Ok::<(ExprView, int), (Seq<char>, int)>((expr_view(left), j as int)));
            }
            break;
        }
        proof {
            lemma_not_last(tv, j as int);
        }
        let op = if times { BinaryOp::Mul } else if divide { BinaryOp::Div } else { BinaryOp::Mod };
        match parse_unary(ts, j + 1) {
            Ok((right, k)) => {
                left = LogicalExpr::Binary { left: Box::new(left), op, right: Box::new(right) };
                j = k;
            },
            Err(e) => return Err(e),
        }
    }
    Ok((left, j))
}

fn parse_unary(ts: &Vec<(Token, usize)>, i: usize) -> (r: Result<(LogicalExpr, usize), ParseError>)
    requires
        well_formed(tokens_view(ts@)),
        i < ts@.len(),
    ensures
        step_matches(r, parse_unary_at(tokens_view(ts@), i as int), i as int, ts@.len() as int),
        yields_plain(r),
    decreases ts@.len() - i, 5int,
{
    let ghost tv = tokens_view(ts@);
    proof {
        lemma_tokens_view(ts@);
    }
    if keyword_at(ts, i, "not") {
        proof {
            lemma_not_last(tv, i as int);
        }
        match parse_unary(ts, i + 1) {
            Ok((inner, k)) => Ok((LogicalExpr::Unary { op: UnaryOp::Not, expr: Box::new(inner) }, k)),
            Err(e) => Err(e),
        }
    } else if op_at(ts, i, "-") {
        proof {
            lemma_not_last(tv, i as int);
        }
        match parse_unary(ts, i + 1) {
            Ok((inner, k)) => Ok((LogicalExpr::Unary { op: UnaryOp::Neg, expr: Box::new(inner) }, k)),
            Err(e) => Err(e),
        }
    } else {
        parse_primary(ts, i)
    }
}

fn bump_exec(ts: &Vec<(Token, usize)>, i: usize) -> (j: usize)
    requires
        i < ts@.len(),
    ensures
        j as int == bump(tokens_view(ts@), i as int),
        i <= j < ts@.len(),
{
    if ts.len() - i > 1 { i + 1 } else { i }
}

fn parse_primary(ts: &Vec<(Token, usize)>, i: usize) -> (r: Result<(LogicalExpr, usize), ParseError>)
    requires
        well_formed(tokens_view(ts@)),
        i < ts@.len(),
    ensures
        step_matches(r, parse_primary_at(tokens_view(ts@), i as int), i as int, ts@.len() as int),
        yields_plain(r),
    decreases ts@.len() - i, 4int,
{
    let ghost tv = tokens_view(ts@);
    proof {
        lemma_tokens_view(ts@);
    }
    match &ts[i].0 {
        Token::Int(v) => Ok((LogicalExpr::Value(QueryValue::Int(*v)), bump_exec(ts, i))),
        Token::Float(bits, _) => Ok((LogicalExpr::Value(QueryValue::Float(*bits)), bump_exec(ts, i))),
        Token::Str(text) => Ok((LogicalExpr::Value(QueryValue::String(String::from_str(text.as_str()))), bump_exec(ts, i))),
        Token::LParen => {
            proof {
                lemma_not_last(tv, i as int);
            }
            match parse_or(ts, i + 1) {
                Ok((e, k)) => match &ts[k].0 {
                    Token::RParen => Ok((e, bump_exec(ts, k))),
                    _ => Err(found_error(ts, k, "expected ')', found ")),
                },
                Err(e) => Err(e),
            }
        },
        Token::Ident(name) => {
            proof {
                lemma_not_last(tv, i as int);
            }
            match &ts[i + 1].0 {
                Token::LParen => {
                    proof {
                        lemma_not_last(tv, i as int + 1);
                    }
                    match &ts[i + 2].0 {
                        Token::RParen => {
                            let args: Vec<LogicalExpr> = Vec::new();
                            proof {
                                assert(exprs_view(args@) =~= Seq::<ExprView>::empty());
                                assert(all_subquery_free(exprs_view(args@)));
                            }
                            Ok((LogicalExpr::Function { name: String::from_str(name.as_str()), args }, bump_exec(ts, i + 2)))
                        },
                        _ => match parse_arguments(ts, i + 2) {
                            Ok((args, k)) => {
                                let f = LogicalExpr::Function { name: String::from_str(name.as_str()), args };
                                proof {
                                    assert(subquery_free(expr_view(f)));
                                }
                                Ok((f, bump_exec(ts, k)))
                            },
                            Err(e) => Err(e),
                        },
                    }
                },
                _ => parse_path(ts, i + 1, name),
            }
        },
        other => {
            let mut message = String::from_str("unexpected token ");
            let d = debug_token(other);
            message.append(d.as_str());
            Err(ParseError { message, position: ts[i].1 })
        },
    }
}

fn parse_arguments(ts: &Vec<(Token, usize)>, i: usize) -> (r: Result<(Vec<LogicalExpr>, usize), ParseError>)
    requires
        well_formed(tokens_view(ts@)),
        i < ts@.len(),
    ensures
        match arguments(tokens_view(ts@), i as int, Seq::empty()) {
            Ok((args, k)) => r matches Ok((v, k2)) && exprs_view(v@) == args && k2 as int == k,
            Err((m, q)) => r matches Err(err) && err.message@ == m && err.position as int == q,
        },
        r matches Ok((v, _)) ==> all_subquery_free(exprs_view(v@)),
        r matches Ok((_, k)) ==> i <= k < ts@.len(),
    decreases ts@.len() - i, 15int,
{
    let ghost tv = tokens_view(ts@);
    proof {
        lemma_tokens_view(ts@);
    }
    let mut args: Vec<LogicalExpr> = Vec::new();
    let mut j = i;
    proof {
        assert(exprs_view(args@) =~= Seq::<ExprView>::empty());
    }
    loop
        invariant
            tv == tokens_view(ts@),
            all_subquery_free(exprs_view(args@)),
            well_formed(tv),
            i <= j < ts@.len(),
            arguments(tv, i as int, Seq::empty()) == arguments(tv, j as int, exprs_view(args@)),
        decreases ts@.len() - j,
    {
        match parse_or(ts, j) {
            Ok((a, k)) => {
                let ghost before = args@;
                match &ts[k].0 {
                    Token::Comma => {
                        proof {
                            lemma_not_last(tv, k as int);
                        }
                        args.push(a);
                        proof {
                            assert(args@.drop_last() =~= before);
                            assert(exprs_view(args@) == exprs_view(before).push(expr_view(a)));
                            assert(exprs_view(args@).drop_last() =~= exprs_view(before));
                        }
                        j = k + 1;
                    },
                    Token::RParen => {
                        args.push(a);
                        proof {
                            assert(args@.drop_last() =~= before);
                            assert(exprs_view(args@) == exprs_view(before).push(expr_view(a)));
                            assert(exprs_view(args@).drop_last() =~= exprs_view(before));
                        }
                        return Ok((args, k));
                    },
                    _ => return Err(found_error(ts, k, "expected ',' or ')' in argument list, found ")),
                }
            },
            Err(e) => return Err(e),
        }
    }
}

fn parse_path(ts: &Vec<(Token, usize)>, i: usize, head: &String) -> (r: Result<(LogicalExpr, usize), ParseError>)
    requires
        well_formed(tokens_view(ts@)),
        i < ts@.len(),
    ensures
        step_matches(r, path_tail(tokens_view(ts@), i as int, seq![SegmentView::Field(head@)]), i as int, ts@.len() as int),
        yields_plain(r),
{
    let ghost tv = tokens_view(ts@);
    proof {
        lemma_tokens_view(ts@);
    }
    let mut segs: Vec<FieldSegment> = Vec::new();
    segs.push(FieldSegment::Field(String::from_str(head.as_str())));
    let mut j = i;
    proof {
        assert(segs@.map_values(|s: FieldSegment| segment_view(s)) =~= seq![SegmentView::Field(head@)]);
    }
    loop
        invariant
            tv == tokens_view(ts@),
            well_formed(tv),
            i <= j < ts@.len(),
            path_tail(tv, i as int, seq![SegmentView::Field(head@)])
                == path_tail(tv, j as int, segs@.map_values(|s: FieldSegment| segment_view(s))),
        ensures
            i <= j < ts@.len(),
            path_tail(tv, i as int, seq![SegmentView::Field(head@)])
                == Ok::<(ExprView, int), (Seq<char>, int)>((ExprView::Field(segs@.map_values(|s: FieldSegment| segment_view(s))), j as int)),
        decreases ts@.len() - j,
    {
        let ghost before = segs@;
        match &ts[j].0 {
            Token::Dot => {
                proof {
                    lemma_not_last(tv, j as int);
                }
                match &ts[j + 1].0 {
                    Token::Ident(seg) => {
                        proof {
                            lemma_not_last(tv, j as int + 1);
                        }
                        segs.push(FieldSegment::Field(String::from_str(seg.as_str())));
                        proof {
                            assert(segs@.map_values(|s: FieldSegment| segment_view(s))
                                =~= before.map_values(|s: FieldSegment| segment_view(s)).push(SegmentView::Field(seg@)));
                        }
                        j = j + 2;
                    },
                    _ => return Err(found_error(ts, j + 1, "expected identifier, found ")),
                }
            },
            Token::LBracket => {
                proof {
                    lemma_not_last(tv, j as int);
                }
                match &ts[j + 1].0 {
                    Token::Int(n) => {
                        if *n < 0 {
                            return Err(found_error(ts, j + 1, "expected list index, found "));
                        }
                        proof {
                            lemma_not_last(tv, j as int + 1);
                        }
                        match &ts[j + 2].0 {
                            Token::RBracket => {
                                proof {
                                    lemma_not_last(tv, j as int + 2);
                                }
                                let index = *n as usize;
                                segs.push(FieldSegment::Index(index));
                                proof {
                                    assert(segs@.map_values(|s: FieldSegment| segment_view(s))
                                        =~= before.map_values(|s: FieldSegment| segment_view(s)).push(SegmentView::Index(index)));
                                }
                                j = j + 3;
                            },
                            _ => return Err(found_error(ts, j + 2, "expected ']', found ")),
                        }
                    },
                    _ => return Err(found_error(ts, j + 1, "expected list index, found ")),
                }
            },
            _ => break,
        }
    }
    Ok((LogicalExpr::Field(FieldPath { segments: segs }), j))
}

/// Whether `tokens` can be handed to [`parse_tokens`]: one `Eof`, at the
/// end, and no decimal literal left undecoded.
pub fn tokens_well_formed(tokens: &Vec<(Token, usize)>) -> (b: bool)
    ensures
        b == well_formed(tokens_view(tokens@)),
{
    let ghost ts = tokens_view(tokens@);
    let n = tokens.len();
    if n == 0 {
        return false;
    }
    let mut i: usize = 0;
    while i < n
        invariant
            n == tokens@.len(),
            ts == tokens_view(tokens@),
            i <= n,
            forall|j: int| 0 <= j < i ==> !(#[trigger] ts[j].0 is Decimal),
            forall|j: int| 0 <= j < i && j < n - 1 ==> !(#[trigger] ts[j].0 is Eof),
        decreases n - i,
    {
        match &tokens[i].0 {
            Token::Decimal(_) => {
                assert(ts[i as int].0 is Decimal);
                return false;
            },
            Token::Eof => {
                if i < n - 1 {
                    assert(ts[i as int].0 is Eof);
                    return false;
                }
            },
            _ => {},
        }
        i = i + 1;
    }
    match &tokens[n - 1].0 {
        Token::Eof => true,
        _ => {
            assert(!(ts.last().0 is Eof));
            false
        },
    }
}

/// Reads a well-formed token stream as one expression (see [`parse_all`]).
pub fn parse_tokens(tokens: &Vec<(Token, usize)>) -> (r: Result<LogicalExpr, ParseError>)
    requires
        well_formed(tokens_view(tokens@)),
    ensures
        match parse_all(tokens_view(tokens@)) {
            Ok(e) => r matches Ok(x) && expr_view(x) == e,
            Err((m, q)) => r matches Err(err) && err.message@ == m && err.position as int == q,
        },
        r matches Ok(x) ==> subquery_free(expr_view(x)),
{
    match parse_or(tokens, 0) {
        Ok((e, k)) => match &tokens[k].0 {
            Token::Eof => Ok(e),
            other => {
                let mut message = String::from_str("unexpected trailing input near ");
                let d = debug_token(other);
                message.append(d.as_str());
                Err(ParseError { message, position: tokens[k].1 })
            },
        },
        Err(e) => Err(e),
    }
}

/// `acc` followed by the root field names `e` reads that `acc` does not
/// hold yet, each once, in the order they first appear.
pub open spec fn collect_roots(acc: Seq<Seq<char>>, e: ExprView) -> Seq<Seq<char>>
    decreases e, 1int,
{
    match e {
        ExprView::Field(path) => if path.len() > 0 && path[0] is Field {
            let name = path[0]->Field_0;
            if acc.contains(name) { acc } else { acc.push(name) }
        } else {
            acc
        },
        ExprView::Binary(left, _, right) => collect_roots(collect_roots(acc, *left), *right),
        ExprView::Unary(_, inner) => collect_roots(acc, *inner),
        ExprView::Function(_, args) => collect_roots_all(acc, args),
        _ => acc,
    }
}

pub open spec fn collect_roots_all(acc: Seq<Seq<char>>, args: Seq<ExprView>) -> Seq<Seq<char>>
    decreases args, 0int,
{
    if args.len() == 0 {
        acc
    } else {
        collect_roots(collect_roots_all(acc, args.drop_last()), args.last())
    }
}

fn holds_name(out: &Vec<String>, name: &str) -> (b: bool)
    ensures
        b == texts_view(out@).contains(name@),
{
    let mut i: usize = 0;
    while i < out.len()
        invariant
            i <= out@.len(),
            forall|j: int| 0 <= j < i ==> out@[j]@ != name@,
        decreases out@.len() - i,
    {
        if same_text(out[i].as_str(), name) {
            proof {
                assert(texts_view(out@)[i as int] == name@);
            }
            return true;
        }
        i = i + 1;
    }
    proof {
        if texts_view(out@).contains(name@) {
            let j = choose|j: int| 0 <= j < texts_view(out@).len() && texts_view(out@)[j] == name@;
            assert(out@[j]@ == name@);
        }
    }
    false
}

fn root_fields_all(args: &Vec<LogicalExpr>, out: &mut Vec<String>)
    ensures
        texts_view(final(out)@) == collect_roots_all(texts_view(old(out)@), exprs_view(args@)),
    decreases args, 0int,
{
    let ghost start = out@;
    let ghost views = exprs_view(args@);
    proof {
        lemma_exprs_view(args@);
    }
    let mut i: usize = 0;
    while i < args.len()
        invariant
            i <= args@.len(),
            views == exprs_view(args@),
            views.len() == args@.len(),
            forall|j: int| 0 <= j < args@.len() ==> #[trigger] views[j] == expr_view(args@[j]),
            texts_view(out@) == collect_roots_all(texts_view(start), views.take(i as int)),
        decreases args@.len() - i,
    {
        proof {
            assert(decreases_to!(*args => args@));
            assert(decreases_to!(args@ => args@[i as int]));
        }
        root_fields(&args[i], out);
        proof {
            let t = views.take(i as int + 1);
            assert(t.drop_last() =~= views.take(i as int));
            assert(t.last() == views[i as int]);
        }
        i = i + 1;
    }
    proof {
        assert(views.take(args@.len() as int) =~= views);
    }
}

/// Appends to `out` the root field names `expr` reads that it lacks (see
/// [`collect_roots`]), so that a row can be prefetched before evaluation.
pub fn root_fields(expr: &LogicalExpr, out: &mut Vec<String>)
    ensures
        texts_view(final(out)@) == collect_roots(texts_view(old(out)@), expr_view(*expr)),
    decreases expr, 1int,
{
    match expr {
        LogicalExpr::Value(_) => {},
        LogicalExpr::Field(path) => {
            if path.segments.len() > 0 {
                match &path.segments[0] {
                    FieldSegment::Field(name) => {
                        if !holds_name(out, name.as_str()) {
                            let ghost before = out@;
                            out.push(String::from_str(name.as_str()));
                            proof {
                                assert(texts_view(out@) =~= texts_view(before).push(name@));
                            }
                        }
                    },
                    FieldSegment::Index(_) => {},
                }
            }
        },
        LogicalExpr::Binary { left, right, .. } => {
            root_fields(left, out);
            root_fields(right, out);
        },
        LogicalExpr::Unary { expr: inner, .. } => root_fields(inner, out),
        LogicalExpr::Function { args, .. } => root_fields_all(args, out),
        LogicalExpr::Subquery(_) => {},
    }
}

} // verus!
