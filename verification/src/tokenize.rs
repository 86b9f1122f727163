use vstd::prelude::*;

use crate::text::{
    hex_value, is_alnum, is_alpha, is_digit, is_hex, is_punct, is_whitespace, spec_hex_value, spec_is_alnum, spec_is_alpha, spec_is_digit,
    spec_is_hex, spec_is_punct, spec_is_whitespace, str_to_chars, chars_eq, push_chars, push_char,
    push_spaces, u64_to_decimal, utf8_len_prefix, decimal, spaces, utf8_len_seq,
};
use crate::types::{clone_type, plain_type, Type, TypeKind};

verus! {

/// The kinds of tokens.
#[derive(Debug, Clone, Copy, PartialEq, Eq, Structural)]
pub enum TokenKind {
    Ident,
    Punct,
    Keyword,
    Str,
    Num,
    PpNum,
    Eof,
}

/// A token. Tokens of one file are kept in a vector in source order; a
/// position in that vector takes the place of a pointer to the next token.
#[derive(Debug)]
pub struct Token {
    pub kind: TokenKind,
    /// The value of an integer or character constant.
    pub val: i64,
    /// The bit pattern of a floating-point constant.
    pub fval_bits: u64,
    /// Index of the first character of the token in its file.
    pub loc: usize,
    /// Number of characters of the token (for an error token: of its message).
    pub len: usize,
    pub ty: Option<Type>,
    /// The bytes of a string literal, or the message of an error token.
    pub str: Option<Vec<u8>>,
    pub file_no: usize,
    pub line_no: usize,
    pub at_bol: bool,
    pub has_space: bool,
}

/// The abstract value of a token: its fields, with the bytes of its string
/// taken by value.
pub struct TokenV {
    pub kind: TokenKind,
    pub val: i64,
    pub fval_bits: u64,
    pub loc: usize,
    pub len: usize,
    pub ty: Option<Type>,
    pub str: Option<Seq<u8>>,
    pub file_no: usize,
    pub line_no: usize,
    pub at_bol: bool,
    pub has_space: bool,
}

impl View for Token {
    type V = TokenV;

    open spec fn view(&self) -> TokenV {
        TokenV {
            kind: self.kind,
            val: self.val,
            fval_bits: self.fval_bits,
            loc: self.loc,
            len: self.len,
            ty: self.ty,
            str: match self.str {
                Some(v) => Some(v@),
                None => None,
            },
            file_no: self.file_no,
            line_no: self.line_no,
            at_bol: self.at_bol,
            has_space: self.has_space,
        }
    }
}

/// A source file: its name, its number and its characters.
#[derive(Debug)]
pub struct File {
    pub name: String,
    pub file_no: usize,
    pub contents: Vec<char>,
}

/// A copy of a byte vector.
pub fn clone_bytes(v: &Vec<u8>) -> (r: Vec<u8>)
    ensures
        r@ == v@,
{
    let mut out: Vec<u8> = Vec::new();
    let mut i: usize = 0;
    while i < v.len()
        invariant
            i <= v.len(),
            out@ == v@.take(i as int),
        decreases v.len() - i,
    {
        out.push(v[i]);
        i += 1;
        assert(out@ =~= v@.take(i as int));
    }
    assert(v@.take(v.len() as int) =~= v@);
    out
}

/// A copy of a token.
pub fn clone_token(t: &Token) -> (r: Token)
    ensures
        r@ == t@,
{
    Token {
        kind: t.kind,
        val: t.val,
        fval_bits: t.fval_bits,
        loc: t.loc,
        len: t.len,
        ty: match &t.ty {
            Some(ty) => Some(clone_type(ty)),
            None => None,
        },
        str: match &t.str {
            Some(s) => Some(clone_bytes(s)),
            None => None,
        },
        file_no: t.file_no,
        line_no: t.line_no,
        at_bol: t.at_bol,
        has_space: t.has_space,
    }
}

/// A token of the given kind spanning `[start, end)` with nothing else set.
pub open spec fn token_at(
    kind: TokenKind,
    start: int,
    end: int,
    at_bol: bool,
    has_space: bool,
    file_no: usize,
) -> TokenV {
    TokenV {
        kind,
        val: 0,
        fval_bits: 0,
        loc: start as usize,
        len: (end - start) as usize,
        ty: None,
        str: None,
        file_no,
        line_no: 0,
        at_bol,
        has_space,
    }
}

/// A new token spanning `[start, end)` of file `file_no`.
pub fn new_token(
    kind: TokenKind,
    start: usize,
    end: usize,
    at_bol: bool,
    has_space: bool,
    file_no: usize,
) -> (r: Token)
    requires
        start <= end,
    ensures
        r@ == token_at(kind, start as int, end as int, at_bol, has_space, file_no),
{
    Token {
        kind,
        val: 0,
        fval_bits: 0,
        loc: start,
        len: end - start,
        ty: None,
        str: None,
        file_no,
        line_no: 0,
        at_bol,
        has_space,
    }
}

/// A new file.
pub fn new_file(name: String, file_no: usize, contents: Vec<char>) -> (r: File)
    ensures
        r.name == name,
        r.file_no == file_no,
        r.contents == contents,
{
    File { name, file_no, contents }
}

// ---------------------------------------------------------------------------
// Escape sequences and UTF-8

/// The errors the tokenizer reports.
#[derive(Debug, Clone, Copy, PartialEq, Eq, Structural)]
pub enum LexError {
    UnclosedString,
    UnclosedChar,
    InvalidHexEscape,
    InvalidToken,
}

/// The message of a tokenizer error.
pub open spec fn lex_error_text(e: LexError) -> Seq<char> {
    match e {
        LexError::UnclosedString => "unclosed string literal"@,
        LexError::UnclosedChar => "unclosed char literal"@,
        LexError::InvalidHexEscape => "invalid hex escape sequence"@,
        LexError::InvalidToken => "invalid token"@,
    }
}

/// The bytes of an ASCII character sequence.
pub open spec fn ascii_bytes(s: Seq<char>) -> Seq<u8> {
    Seq::new(s.len(), |i: int| s[i] as u8)
}

/// The message of a tokenizer error as a string.
pub fn lex_error_message(e: LexError) -> (r: &'static str)
    ensures
        r@ == lex_error_text(e),
{
    match e {
        LexError::UnclosedString => "unclosed string literal",
        LexError::UnclosedChar => "unclosed char literal",
        LexError::InvalidHexEscape => "invalid hex escape sequence",
        LexError::InvalidToken => "invalid token",
    }
}

/// The message of a tokenizer error as bytes.
pub fn lex_error_bytes(e: LexError) -> (r: Vec<u8>)
    ensures
        r@ == ascii_bytes(lex_error_text(e)),
{
    let cs = str_to_chars(lex_error_message(e));
    let mut out: Vec<u8> = Vec::new();
    let mut i: usize = 0;
    while i < cs.len()
        invariant
            i <= cs.len(),
            out@ == ascii_bytes(cs@.take(i as int)),
        decreases cs.len() - i,
    {
        out.push(cs[i] as u8);
        i += 1;
        assert(out@ =~= ascii_bytes(cs@.take(i as int)));
    }
    assert(cs@.take(cs.len() as int) =~= cs@);
    out
}

/// The error token that ends the token list when tokenizing fails: an end
/// token at `loc` carrying the message.
pub open spec fn error_token(file_no: usize, loc: int, e: LexError) -> TokenV {
    TokenV {
        kind: TokenKind::Eof,
        val: 0,
        fval_bits: 0,
        loc: loc as usize,
        len: lex_error_text(e).len() as usize,
        ty: None,
        str: Some(ascii_bytes(lex_error_text(e))),
        file_no,
        line_no: 0,
        at_bol: false,
        has_space: false,
    }
}

fn make_error_token(file_no: usize, loc: usize, e: LexError) -> (r: Token)
    ensures
        r@ == error_token(file_no, loc as int, e),
{
    let bytes = lex_error_bytes(e);
    let len = bytes.len();
    Token {
        kind: TokenKind::Eof,
        val: 0,
        fval_bits: 0,
        loc,
        len,
        ty: None,
        str: Some(bytes),
        file_no,
        line_no: 0,
        at_bol: false,
        has_space: false,
    }
}

/// Whether a character is an octal digit.
pub open spec fn is_octal(c: char) -> bool {
    '0' <= c && c <= '7'
}

/// The value of an octal digit.
pub open spec fn octal_value(c: char) -> int {
    c as int - '0' as int
}

/// The number of octal digits (at most three) starting at `p`.
pub open spec fn octal_run(cs: Seq<char>, p: int) -> int {
    if p + 1 < cs.len() && is_octal(cs[p + 1]) {
        if p + 2 < cs.len() && is_octal(cs[p + 2]) {
            3
        } else {
            2
        }
    } else {
        1
    }
}

/// The value of the octal escape of `k` digits starting at `p`.
pub open spec fn octal_escape_value(cs: Seq<char>, p: int, k: int) -> int {
    if k == 1 {
        octal_value(cs[p])
    } else if k == 2 {
        octal_value(cs[p]) * 8 + octal_value(cs[p + 1])
    } else {
        (octal_value(cs[p]) * 8 + octal_value(cs[p + 1])) * 8 + octal_value(cs[p + 2])
    }
}

/// The end of the run of hexadecimal digits starting at `p`.
pub open spec fn hex_run_end(cs: Seq<char>, p: int) -> int
    decreases cs.len() - p,
{
    if 0 <= p < cs.len() && spec_is_hex(cs[p]) {
        hex_run_end(cs, p + 1)
    } else {
        p
    }
}

/// The value of the hexadecimal digits in `[start, end)`, shifted into a
/// 32-bit accumulator four bits at a time (high digits fall off).
pub open spec fn hex_acc(cs: Seq<char>, start: int, end: int) -> u32
    decreases end - start,
{
    if end <= start {
        0
    } else {
        ((hex_acc(cs, start, end - 1) << 4u32) + spec_hex_value(cs[end - 1])) as u32
    }
}

/// The character an escape letter stands for.
pub open spec fn escape_letter(c: char) -> char {
    if c == 'a' {
        '\x07'
    } else if c == 'b' {
        '\x08'
    } else if c == 't' {
        '\x09'
    } else if c == 'n' {
        '\x0A'
    } else if c == 'v' {
        '\x0B'
    } else if c == 'f' {
        '\x0C'
    } else if c == 'r' {
        '\x0D'
    } else if c == 'e' {
        '\x1B'
    } else {
        c
    }
}

/// Whether a number is a Unicode scalar value, a valid `char`.
pub open spec fn is_scalar(v: u32) -> bool {
    v < 0xD800 || (0xE000 <= v && v <= 0x10FFFF)
}

/// `char::from_u32`: the character with the given code point, if it is one.
#[verifier::external_body]
pub(crate) fn char_from_u32(v: u32) -> (r: Option<char>)
    ensures
        r == (if is_scalar(v) {
            Some(v as char)
        } else {
            None
        }),
{
    char::from_u32(v)
}

/// The character of code point `v`, or NUL if `v` is none.
pub open spec fn char_or_nul(v: u32) -> char {
    if is_scalar(v) {
        v as char
    } else {
        '\0'
    }
}

/// What an escape sequence whose first character (after the backslash) is
/// at `p` stands for: the character and the number of characters it takes.
pub open spec fn escaped_char(cs: Seq<char>, p: int) -> Result<(char, int), LexError> {
    if p < cs.len() && is_octal(cs[p]) {
        let k = octal_run(cs, p);
        Ok((char_or_nul(octal_escape_value(cs, p, k) as u32), k))
    } else if p >= cs.len() {
        Ok(('\0', 0))
    } else if cs[p] == 'x' {
        let end = hex_run_end(cs, p + 1);
        if end == p + 1 {
            Err(LexError::InvalidHexEscape)
        } else {
            Ok((char_or_nul(hex_acc(cs, p + 1, end)), end - p))
        }
    } else {
        Ok((escape_letter(cs[p]), 1))
    }
}

/// Escape sequences: the letters `a b t n v f r e` stand for the control
/// characters 7, 8, 9, 10, 11, 12, 13 and 27, taking one character; any
/// other character that is neither an octal digit nor `x` stands for
/// itself; one to three octal digits stand for their value in base 8
/// (as many as follow, up to three).
pub proof fn law_escapes_stand_for_their_characters(cs: Seq<char>, p: int)
    requires
        0 <= p < cs.len(),
    ensures
        cs[p] == 'a' ==> escaped_char(cs, p) == Ok::<(char, int), LexError>(('\x07', 1)),
        cs[p] == 'b' ==> escaped_char(cs, p) == Ok::<(char, int), LexError>(('\x08', 1)),
        cs[p] == 't' ==> escaped_char(cs, p) == Ok::<(char, int), LexError>(('\x09', 1)),
        cs[p] == 'n' ==> escaped_char(cs, p) == Ok::<(char, int), LexError>(('\x0A', 1)),
        cs[p] == 'v' ==> escaped_char(cs, p) == Ok::<(char, int), LexError>(('\x0B', 1)),
        cs[p] == 'f' ==> escaped_char(cs, p) == Ok::<(char, int), LexError>(('\x0C', 1)),
        cs[p] == 'r' ==> escaped_char(cs, p) == Ok::<(char, int), LexError>(('\x0D', 1)),
        cs[p] == 'e' ==> escaped_char(cs, p) == Ok::<(char, int), LexError>(('\x1B', 1)),
        !is_octal(cs[p]) && cs[p] != 'x' && cs[p] != 'a' && cs[p] != 'b' && cs[p] != 't' && cs[p]
            != 'n' && cs[p] != 'v' && cs[p] != 'f' && cs[p] != 'r' && cs[p] != 'e'
            ==> escaped_char(cs, p) == Ok::<(char, int), LexError>((cs[p], 1)),
        is_octal(cs[p]) && p + 2 < cs.len() && is_octal(cs[p + 1]) && is_octal(cs[p + 2])
            ==> escaped_char(cs, p) == Ok::<(char, int), LexError>(
            (
                char_or_nul(
                    (64 * octal_value(cs[p]) + 8 * octal_value(cs[p + 1]) + octal_value(cs[p + 2])) as u32,
                ),
                3,
            ),
        ),
        is_octal(cs[p]) && (p + 1 >= cs.len() || !is_octal(cs[p + 1])) ==> escaped_char(cs, p)
            == Ok::<(char, int), LexError>((char_or_nul(octal_value(cs[p]) as u32), 1)),
{
}

/// What a wide escape sequence whose first character is at `p` stands for.
pub open spec fn wide_escaped_char(cs: Seq<char>, p: int) -> Result<(i64, int), LexError> {
    if p < cs.len() && is_octal(cs[p]) {
        let k = octal_run(cs, p);
        Ok((octal_escape_value(cs, p, k) as i64, k))
    } else if p >= cs.len() {
        Ok((0, 0))
    } else if cs[p] == 'x' {
        let end = hex_run_end(cs, p + 1);
        if end == p + 1 {
            Err(LexError::InvalidHexEscape)
        } else {
            Ok((hex_acc(cs, p + 1, end) as i32 as i64, end - p))
        }
    } else {
        let c = cs[p];
        if c == 'a' || c == 'b' || c == 't' || c == 'n' || c == 'v' || c == 'f' || c == 'r' || c
            == 'e' {
            Ok((escape_letter(c) as i64, 1))
        } else {
            Ok((c as u8 as i64, 1))
        }
    }
}

proof fn lemma_hex_step(acc: u32, d: u32)
    requires
        d < 16,
    ensures
        (acc << 4u32) as int + d as int <= u32::MAX as int,
{
    assert((acc << 4u32) <= 0xffff_fff0u32) by (bit_vector);
}

proof fn lemma_hex_run_end_bounds(cs: Seq<char>, p: int)
    requires
        0 <= p <= cs.len(),
    ensures
        p <= hex_run_end(cs, p) <= cs.len(),
        forall|i: int| p <= i < hex_run_end(cs, p) ==> spec_is_hex(#[trigger] cs[i]),
        hex_run_end(cs, p) < cs.len() ==> !spec_is_hex(cs[hex_run_end(cs, p)]),
    decreases cs.len() - p,
{
    if p < cs.len() && spec_is_hex(cs[p]) {
        lemma_hex_run_end_bounds(cs, p + 1);
    }
}

/// Reads the hexadecimal digits starting at `p`; returns the accumulated
/// value and the end of the run.
fn read_hex_digits(cs: &[char], p: usize) -> (r: (u32, usize))
    requires
        p <= cs.len(),
    ensures
        r.1 == hex_run_end(cs@, p as int),
        r.0 == hex_acc(cs@, p as int, r.1 as int),
{
    let mut c: u32 = 0;
    let mut i: usize = p;
    while i < cs.len() && is_hex(cs[i])
        invariant
            p <= i <= cs.len(),
            hex_run_end(cs@, i as int) == hex_run_end(cs@, p as int),
            c == hex_acc(cs@, p as int, i as int),
        decreases cs.len() - i,
    {
        let d = hex_value(cs[i]);
        proof {
            lemma_hex_step(c, d);
        }
        c = (c << 4) + d;
        i += 1;
    }
    (c, i)
}

/// Reads an escape sequence whose first character (after the backslash) is
/// at `pos`: the character it stands for and the number of characters used.
pub fn read_escaped_char(chars: &[char], pos: usize) -> (r: Result<(char, usize), LexError>)
    ensures
        match r {
            Ok((c, k)) => escaped_char(chars@, pos as int) == Ok::<(char, int), LexError>(
                (c, k as int),
            ),
            Err(e) => escaped_char(chars@, pos as int) == Err::<(char, int), LexError>(e),
        },
{
    if pos < chars.len() && '0' <= chars[pos] && chars[pos] <= '7' {
        let mut c: u32 = (chars[pos] as u32) - ('0' as u32);
        let mut consumed: usize = 1;
        if pos + 1 < chars.len() && '0' <= chars[pos + 1] && chars[pos + 1] <= '7' {
            c = c * 8 + (chars[pos + 1] as u32) - ('0' as u32);
            consumed = 2;
            if pos + 2 < chars.len() && '0' <= chars[pos + 2] && chars[pos + 2] <= '7' {
                c = c * 8 + (chars[pos + 2] as u32) - ('0' as u32);
                consumed = 3;
            }
        }
        let ch = match char_from_u32(c) {
            Some(x) => x,
            None => '\0',
        };
        return Ok((ch, consumed));
    }
    if pos >= chars.len() {
        return Ok(('\0', 0));
    }
    if chars[pos] == 'x' {
        let (c, end) = read_hex_digits(chars, pos + 1);
        proof {
            lemma_hex_run_end_bounds(chars@, pos + 1);
        }
        if end == pos + 1 {
            return Err(LexError::InvalidHexEscape);
        }
        let ch = match char_from_u32(c) {
            Some(x) => x,
            None => '\0',
        };
        return Ok((ch, end - pos));
    }
    let c = chars[pos];
    let e = if c == 'a' {
        '\x07'
    } else if c == 'b' {
        '\x08'
    } else if c == 't' {
        '\x09'
    } else if c == 'n' {
        '\x0A'
    } else if c == 'v' {
        '\x0B'
    } else if c == 'f' {
        '\x0C'
    } else if c == 'r' {
        '\x0D'
    } else if c == 'e' {
        '\x1B'
    } else {
        c
    };
    Ok((e, 1))
}

/// Reads an escape sequence of a wide character constant: the value and the
/// number of characters used.
pub fn read_wide_escaped_char(chars: &[char], pos: usize) -> (r: Result<(i64, usize), LexError>)
    ensures
        match r {
            Ok((v, k)) => wide_escaped_char(chars@, pos as int) == Ok::<(i64, int), LexError>(
                (v, k as int),
            ),
            Err(e) => wide_escaped_char(chars@, pos as int) == Err::<(i64, int), LexError>(e),
        },
{
    if pos < chars.len() && '0' <= chars[pos] && chars[pos] <= '7' {
        let mut c: u32 = (chars[pos] as u32) - ('0' as u32);
        let mut n: usize = 1;
        if pos + 1 < chars.len() && '0' <= chars[pos + 1] && chars[pos + 1] <= '7' {
            c = c * 8 + (chars[pos + 1] as u32) - ('0' as u32);
            n = 2;
            if pos + 2 < chars.len() && '0' <= chars[pos + 2] && chars[pos + 2] <= '7' {
                c = c * 8 + (chars[pos + 2] as u32) - ('0' as u32);
                n = 3;
            }
        }
        return Ok((c as i32 as i64, n));
    }
    if pos >= chars.len() {
        return Ok((0, 0));
    }
    if chars[pos] == 'x' {
        let (c, end) = read_hex_digits(chars, pos + 1);
        proof {
            lemma_hex_run_end_bounds(chars@, pos + 1);
        }
        if end == pos + 1 {
            return Err(LexError::InvalidHexEscape);
        }
        return Ok((c as i32 as i64, end - pos));
    }
    let c = chars[pos];
    let v: i64 = if c == 'a' {
        0x07
    } else if c == 'b' {
        0x08
    } else if c == 't' {
        0x09
    } else if c == 'n' {
        0x0A
    } else if c == 'v' {
        0x0B
    } else if c == 'f' {
        0x0C
    } else if c == 'r' {
        0x0D
    } else if c == 'e' {
        0x1B
    } else {
        (c as u8) as i64
    };
    Ok((v, 1))
}

/// The UTF-8 encoding of a code point up to 0x1FFFFF.
pub open spec fn utf8_encode(c: u32) -> Seq<u8> {
    if c <= 0x7F {
        seq![c as u8]
    } else if c <= 0x7FF {
        seq![(0xC0u32 | (c >> 6u32)) as u8, (0x80u32 | (c & 0x3Fu32)) as u8]
    } else if c <= 0xFFFF {
        seq![
            (0xE0u32 | (c >> 12u32)) as u8,
            (0x80u32 | ((c >> 6u32) & 0x3Fu32)) as u8,
            (0x80u32 | (c & 0x3Fu32)) as u8,
        ]
    } else {
        seq![
            (0xF0u32 | (c >> 18u32)) as u8,
            (0x80u32 | ((c >> 12u32) & 0x3Fu32)) as u8,
            (0x80u32 | ((c >> 6u32) & 0x3Fu32)) as u8,
            (0x80u32 | (c & 0x3Fu32)) as u8,
        ]
    }
}

/// Appends the UTF-8 encoding of `c` to `out`; returns the number of bytes.
pub fn encode_utf8(c: u32, out: &mut Vec<u8>) -> (n: usize)
    ensures
        final(out)@ == old(out)@ + utf8_encode(c),
        n == utf8_encode(c).len(),
{
    if c <= 0x7F {
        out.push(c as u8);
        assert(out@ =~= old(out)@ + utf8_encode(c));
        return 1;
    }
    if c <= 0x7FF {
        out.push((0xC0u32 | (c >> 6)) as u8);
        out.push((0x80u32 | (c & 0x3F)) as u8);
        assert(out@ =~= old(out)@ + utf8_encode(c));
        return 2;
    }
    if c <= 0xFFFF {
        out.push((0xE0u32 | (c >> 12)) as u8);
        out.push((0x80u32 | ((c >> 6) & 0x3F)) as u8);
        out.push((0x80u32 | (c & 0x3F)) as u8);
        assert(out@ =~= old(out)@ + utf8_encode(c));
        return 3;
    }
    out.push((0xF0u32 | (c >> 18)) as u8);
    out.push((0x80u32 | ((c >> 12) & 0x3F)) as u8);
    out.push((0x80u32 | ((c >> 6) & 0x3F)) as u8);
    out.push((0x80u32 | (c & 0x3F)) as u8);
    assert(out@ =~= old(out)@ + utf8_encode(c));
    4
}

// ---------------------------------------------------------------------------
// Scanning

/// Whether three characters at `p` are `a b c`.
pub open spec fn at3(cs: Seq<char>, p: int, a: char, b: char, c: char) -> bool {
    cs.len() - p >= 3 && cs[p] == a && cs[p + 1] == b && cs[p + 2] == c
}

/// Whether two characters at `p` are `a b`.
pub open spec fn at2(cs: Seq<char>, p: int, a: char, b: char) -> bool {
    cs.len() - p >= 2 && cs[p] == a && cs[p + 1] == b
}

/// Whether a two-character punctuator starts at `p`.
pub open spec fn punct2_at(cs: Seq<char>, p: int) -> bool {
    at2(cs, p, '=', '=') || at2(cs, p, '!', '=') || at2(cs, p, '<', '=') || at2(cs, p, '>', '=')
        || at2(cs, p, '-', '>') || at2(cs, p, '+', '=') || at2(cs, p, '-', '=') || at2(
        cs,
        p,
        '*',
        '=',
    ) || at2(cs, p, '/', '=') || at2(cs, p, '%', '=') || at2(cs, p, '&', '=') || at2(
        cs,
        p,
        '|',
        '=',
    ) || at2(cs, p, '^', '=') || at2(cs, p, '+', '+') || at2(cs, p, '-', '-') || at2(
        cs,
        p,
        '&',
        '&',
    ) || at2(cs, p, '|', '|') || at2(cs, p, '<', '<') || at2(cs, p, '>', '>') || at2(
        cs,
        p,
        '#',
        '#',
    )
}

/// The length of the punctuator at `p` (the longest one that matches), or 0.
pub open spec fn punct_len(cs: Seq<char>, p: int) -> int {
    if at3(cs, p, '<', '<', '=') || at3(cs, p, '>', '>', '=') || at3(cs, p, '.', '.', '.') {
        3
    } else if punct2_at(cs, p) {
        2
    } else if spec_is_punct(cs[p]) {
        1
    } else {
        0
    }
}

fn at2_exec(cs: &[char], p: usize, a: char, b: char) -> (r: bool)
    requires
        p <= cs.len(),
    ensures
        r == at2(cs@, p as int, a, b),
{
    cs.len() - p >= 2 && cs[p] == a && cs[p + 1] == b
}

fn at3_exec(cs: &[char], p: usize, a: char, b: char, c: char) -> (r: bool)
    requires
        p <= cs.len(),
    ensures
        r == at3(cs@, p as int, a, b, c),
{
    cs.len() - p >= 3 && cs[p] == a && cs[p + 1] == b && cs[p + 2] == c
}

/// Reads a punctuator at `pos`: its length, if one starts there.
pub fn read_punct(chars: &[char], pos: usize) -> (r: Option<usize>)
    requires
        pos < chars.len(),
    ensures
        punct_len(chars@, pos as int) == 0 ==> r.is_none(),
        punct_len(chars@, pos as int) != 0 ==> r == Some(punct_len(chars@, pos as int) as usize),
{
    if at3_exec(chars, pos, '<', '<', '=') || at3_exec(chars, pos, '>', '>', '=') || at3_exec(
        chars,
        pos,
        '.',
        '.',
        '.',
    ) {
        return Some(3);
    }
    if at2_exec(chars, pos, '=', '=') || at2_exec(chars, pos, '!', '=') || at2_exec(
        chars,
        pos,
        '<',
        '=',
    ) || at2_exec(chars, pos, '>', '=') || at2_exec(chars, pos, '-', '>') || at2_exec(
        chars,
        pos,
        '+',
        '=',
    ) || at2_exec(chars, pos, '-', '=') || at2_exec(chars, pos, '*', '=') || at2_exec(
        chars,
        pos,
        '/',
        '=',
    ) || at2_exec(chars, pos, '%', '=') || at2_exec(chars, pos, '&', '=') || at2_exec(
        chars,
        pos,
        '|',
        '=',
    ) || at2_exec(chars, pos, '^', '=') || at2_exec(chars, pos, '+', '+') || at2_exec(
        chars,
        pos,
        '-',
        '-',
    ) || at2_exec(chars, pos, '&', '&') || at2_exec(chars, pos, '|', '|') || at2_exec(
        chars,
        pos,
        '<',
        '<',
    ) || at2_exec(chars, pos, '>', '>') || at2_exec(chars, pos, '#', '#') {
        return Some(2);
    }
    if is_punct(chars[pos]) {
        return Some(1);
    }
    None
}

/// The end of a `//` comment body starting at `p`: the next newline or the end.
pub open spec fn line_comment_end(cs: Seq<char>, p: int) -> int
    decreases cs.len() - p,
{
    if p < cs.len() && cs[p] != '\n' {
        line_comment_end(cs, p + 1)
    } else {
        p
    }
}

/// The end of a `/* */` comment body starting at `p`: just past the closing
/// `*/`, or the last character when there is none.
pub open spec fn block_comment_end(cs: Seq<char>, p: int) -> int
    decreases cs.len() - p,
{
    if p + 1 < cs.len() {
        if cs[p] == '*' && cs[p + 1] == '/' {
            p + 2
        } else {
            block_comment_end(cs, p + 1)
        }
    } else {
        p
    }
}

/// Whether a character may continue an identifier.
pub open spec fn is_ident_char(c: char) -> bool {
    spec_is_alnum(c) || c == '_'
}

/// The end of the identifier characters starting at `p`.
pub open spec fn ident_end(cs: Seq<char>, p: int) -> int
    decreases cs.len() - p,
{
    if p < cs.len() && is_ident_char(cs[p]) {
        ident_end(cs, p + 1)
    } else {
        p
    }
}

/// The end of a preprocessing number whose rest starts at `p`.
pub open spec fn ppnum_end(cs: Seq<char>, p: int) -> int
    decreases cs.len() - p,
{
    if p + 1 < cs.len() && (cs[p] == 'e' || cs[p] == 'E' || cs[p] == 'p' || cs[p] == 'P') && (
    cs[p + 1] == '+' || cs[p + 1] == '-') {
        ppnum_end(cs, p + 2)
    } else if p < cs.len() && (spec_is_alnum(cs[p]) || cs[p] == '.') {
        ppnum_end(cs, p + 1)
    } else {
        p
    }
}

/// The outcome of scanning the body of a string literal.
pub enum StrScan {
    /// The literal ends before `end`; `bytes` are its contents.
    Done { end: int, bytes: Seq<u8> },
    /// Scanning failed with an error at `loc`.
    Fail { loc: int, err: LexError },
}

/// Scans the rest of a string literal that started at `start`, from `p`,
/// with the bytes read so far in `acc`.
pub open spec fn scan_str(cs: Seq<char>, start: int, p: int, acc: Seq<u8>) -> StrScan
    decreases cs.len() - p,
{
    if p >= cs.len() || p < 0 {
        StrScan::Fail { loc: start, err: LexError::UnclosedString }
    } else if cs[p] == '"' {
        StrScan::Done { end: p + 1, bytes: acc }
    } else if cs[p] == '\n' || cs[p] == '\0' {
        StrScan::Fail { loc: start, err: LexError::UnclosedString }
    } else if cs[p] == '\\' {
        if p + 1 >= cs.len() {
            StrScan::Fail { loc: start, err: LexError::UnclosedString }
        } else {
            match escaped_char(cs, p + 1) {
                Ok((c, k)) => if k >= 1 && p + 1 + k <= cs.len() {
                    scan_str(cs, start, p + 1 + k, acc + utf8_encode(c as u32))
                } else {
                    StrScan::Fail { loc: start, err: LexError::UnclosedString }
                },
                Err(e) => StrScan::Fail { loc: p + 1, err: e },
            }
        }
    } else {
        scan_str(cs, start, p + 1, acc + utf8_encode(cs[p] as u32))
    }
}

/// The outcome of reading the character constant of a `'...'` or `L'...'`
/// literal once the opening quote is behind `p`.
pub enum CharScan {
    Done { end: int, val: i64 },
    Fail { loc: int, err: LexError },
}

/// Reads a plain character constant whose body starts at `p`.
pub open spec fn scan_char(cs: Seq<char>, start: int, p: int) -> CharScan {
    if p >= cs.len() {
        CharScan::Fail { loc: start, err: LexError::UnclosedChar }
    } else if cs[p] == '\\' {
        if p + 1 >= cs.len() {
            CharScan::Fail { loc: start, err: LexError::UnclosedChar }
        } else {
            match escaped_char(cs, p + 1) {
                Ok((c, k)) => close_char(cs, p + 1 + k, c as u8 as i8 as i64),
                Err(e) => CharScan::Fail { loc: p + 1, err: e },
            }
        }
    } else {
        close_char(cs, p + 1, cs[p] as u32 as u8 as i8 as i64)
    }
}

/// Reads a wide character constant whose body starts at `p`.
pub open spec fn scan_wide_char(cs: Seq<char>, start: int, p: int) -> CharScan {
    if p >= cs.len() {
        CharScan::Fail { loc: start, err: LexError::UnclosedChar }
    } else if cs[p] == '\\' {
        if p + 1 >= cs.len() {
            CharScan::Fail { loc: start, err: LexError::UnclosedChar }
        } else {
            match wide_escaped_char(cs, p + 1) {
                Ok((v, k)) => close_char(cs, p + 1 + k, v),
                Err(e) => CharScan::Fail { loc: p + 1, err: e },
            }
        }
    } else {
        close_char(cs, p + 1, cs[p] as u32 as i32 as i64)
    }
}

/// Expects the closing quote of a character constant at `p`.
pub open spec fn close_char(cs: Seq<char>, p: int, val: i64) -> CharScan {
    if p >= cs.len() || cs[p] != '\'' {
        CharScan::Fail { loc: p, err: LexError::UnclosedChar }
    } else {
        CharScan::Done { end: p + 1, val }
    }
}

/// One step of the tokenizer at position `p`.
pub enum LexStep {
    /// Nothing is emitted; scanning goes on at `pos` with the given flags.
    Skip { pos: int, at_bol: bool, has_space: bool },
    /// A token is emitted; scanning goes on at `pos`.
    Emit { tok: TokenV, pos: int },
    /// Tokenizing stops with an error at `loc`.
    Fail { loc: int, err: LexError },
}

/// The string literal token spanning `[start, end)` with the given contents.
pub open spec fn str_token(
    start: int,
    end: int,
    bytes: Seq<u8>,
    at_bol: bool,
    has_space: bool,
    file_no: usize,
) -> TokenV {
    TokenV {
        ty: Some(
            Type {
                base: Some(Box::new(plain_type(TypeKind::Char, 1, 1, false))),
                array_len: (bytes.len() + 1) as i64,
                ..plain_type(TypeKind::Array, (bytes.len() + 1) as i64, 1, false)
            },
        ),
        str: Some(bytes),
        ..token_at(TokenKind::Str, start, end, at_bol, has_space, file_no)
    }
}

/// The character constant token spanning `[start, end)`.
pub open spec fn char_token(
    start: int,
    end: int,
    val: i64,
    ty: Type,
    at_bol: bool,
    has_space: bool,
    file_no: usize,
) -> TokenV {
    TokenV { val, ty: Some(ty), ..token_at(TokenKind::Num, start, end, at_bol, has_space, file_no) }
}

/// One step of the tokenizer at `p < cs.len()`.
pub open spec fn lex_step(cs: Seq<char>, p: int, at_bol: bool, has_space: bool, file_no: usize) -> LexStep {
    let c = cs[p];
    if c == '\n' {
        LexStep::Skip { pos: p + 1, at_bol: true, has_space: false }
    } else if spec_is_whitespace(c) {
        LexStep::Skip { pos: p + 1, at_bol, has_space: true }
    } else if at2(cs, p, '/', '/') {
        LexStep::Skip { pos: line_comment_end(cs, p + 2), at_bol, has_space: true }
    } else if at2(cs, p, '/', '*') {
        LexStep::Skip { pos: block_comment_end(cs, p + 2), at_bol, has_space: true }
    } else if c == '"' {
        match scan_str(cs, p, p + 1, Seq::empty()) {
            StrScan::Done { end, bytes } => LexStep::Emit {
                tok: str_token(p, end, bytes, at_bol, has_space, file_no),
                pos: end,
            },
            StrScan::Fail { loc, err } => LexStep::Fail { loc, err },
        }
    } else if p + 1 < cs.len() && (c == 'L' || c == 'u') && cs[p + 1] == '\'' {
        match scan_wide_char(cs, p, p + 2) {
            CharScan::Done { end, val } => LexStep::Emit {
                tok: if c == 'u' {
                    char_token(
                        p,
                        end,
                        (val & 0xffff) as i64,
                        plain_type(TypeKind::Short, 2, 2, true),
                        at_bol,
                        has_space,
                        file_no,
                    )
                } else {
                    char_token(
                        p,
                        end,
                        val,
                        plain_type(TypeKind::Int, 4, 4, false),
                        at_bol,
                        has_space,
                        file_no,
                    )
                },
                pos: end,
            },
            CharScan::Fail { loc, err } => LexStep::Fail { loc, err },
        }
    } else if c == '\'' {
        match scan_char(cs, p, p + 1) {
            CharScan::Done { end, val } => LexStep::Emit {
                tok: char_token(
                    p,
                    end,
                    val,
                    plain_type(TypeKind::Int, 4, 4, false),
                    at_bol,
                    has_space,
                    file_no,
                ),
                pos: end,
            },
            CharScan::Fail { loc, err } => LexStep::Fail { loc, err },
        }
    } else if spec_is_digit(c) || (c == '.' && p + 1 < cs.len() && spec_is_digit(cs[p + 1])) {
        let end = ppnum_end(cs, p + 1);
        LexStep::Emit {
            tok: token_at(TokenKind::PpNum, p, end, at_bol, has_space, file_no),
            pos: end,
        }
    } else if spec_is_alpha(c) || c == '_' {
        let end = ident_end(cs, p);
        LexStep::Emit {
            tok: token_at(TokenKind::Ident, p, end, at_bol, has_space, file_no),
            pos: end,
        }
    } else if punct_len(cs, p) != 0 {
        let end = p + punct_len(cs, p);
        LexStep::Emit {
            tok: token_at(TokenKind::Punct, p, end, at_bol, has_space, file_no),
            pos: end,
        }
    } else {
        LexStep::Fail { loc: p, err: LexError::InvalidToken }
    }
}


/// The tokens of `cs` from position `p` on, with the given flags; the last
/// token is the end token, or an error token when tokenizing fails.
pub open spec fn lex(cs: Seq<char>, p: int, at_bol: bool, has_space: bool, file_no: usize) -> Seq<
    TokenV,
>
    decreases cs.len() - p,
{
    if p >= cs.len() || p < 0 {
        seq![token_at(TokenKind::Eof, p, p, at_bol, has_space, file_no)]
    } else {
        match lex_step(cs, p, at_bol, has_space, file_no) {
            LexStep::Skip { pos, at_bol: a, has_space: h } => if p < pos <= cs.len() {
                lex(cs, pos, a, h, file_no)
            } else {
                Seq::empty()
            },
            LexStep::Emit { tok, pos } => if p < pos <= cs.len() {
                seq![tok] + lex(cs, pos, false, false, file_no)
            } else {
                Seq::empty()
            },
            LexStep::Fail { loc, err } => seq![error_token(file_no, loc, err)],
        }
    }
}

/// Number of newline characters in a sequence.
pub open spec fn newlines(s: Seq<char>) -> nat
    decreases s.len(),
{
    if s.len() == 0 {
        0
    } else {
        newlines(s.drop_last()) + if s.last() == '\n' {
            1nat
        } else {
            0nat
        }
    }
}

/// The line number of position `loc`: one more than the newlines before it.
pub open spec fn line_of(cs: Seq<char>, loc: int) -> nat {
    newlines(cs.take(loc)) + 1
}

/// The tokens with their line numbers filled in.
pub open spec fn with_lines(cs: Seq<char>, ts: Seq<TokenV>) -> Seq<TokenV> {
    Seq::new(ts.len(), |i: int| TokenV { line_no: line_of(cs, ts[i].loc as int) as usize, ..ts[i] })
}

/// Whether a token list ends in an error token.
pub open spec fn lex_failed(ts: Seq<TokenV>) -> bool {
    ts.len() > 0 && ts.last().str.is_some()
}

/// The tokens of a file's contents: the scanned tokens, with line numbers
/// unless scanning ended in an error.
pub open spec fn spec_tokenize(cs: Seq<char>, file_no: usize) -> Seq<TokenV> {
    let ts = lex(cs, 0, true, false, file_no);
    if lex_failed(ts) {
        ts
    } else {
        with_lines(cs, ts)
    }
}

/// The views of a vector of tokens.
pub open spec fn views(ts: Seq<Token>) -> Seq<TokenV> {
    ts.map_values(|t: Token| t@)
}

fn skip_line_comment(cs: &[char], p: usize) -> (r: usize)
    requires
        p <= cs.len(),
    ensures
        r == line_comment_end(cs@, p as int),
        p <= r <= cs.len(),
{
    let mut i = p;
    while i < cs.len() && cs[i] != '\n'
        invariant
            p <= i <= cs.len(),
            line_comment_end(cs@, i as int) == line_comment_end(cs@, p as int),
        decreases cs.len() - i,
    {
        i += 1;
    }
    i
}

fn skip_block_comment(cs: &[char], p: usize) -> (r: usize)
    requires
        p <= cs.len(),
    ensures
        r == block_comment_end(cs@, p as int),
        p <= r <= cs.len(),
{
    let mut i = p;
    while cs.len() - i > 1
        invariant
            p <= i <= cs.len(),
            block_comment_end(cs@, i as int) == block_comment_end(cs@, p as int),
        decreases cs.len() - i,
    {
        if cs[i] == '*' && cs[i + 1] == '/' {
            return i + 2;
        }
        i += 1;
    }
    i
}

fn scan_ident(cs: &[char], p: usize) -> (r: usize)
    requires
        p <= cs.len(),
    ensures
        r == ident_end(cs@, p as int),
        p <= r <= cs.len(),
{
    let mut i = p;
    while i < cs.len() && (is_alnum(cs[i]) || cs[i] == '_')
        invariant
            p <= i <= cs.len(),
            ident_end(cs@, i as int) == ident_end(cs@, p as int),
        decreases cs.len() - i,
    {
        i += 1;
    }
    i
}

fn scan_ppnum(cs: &[char], p: usize) -> (r: usize)
    requires
        p <= cs.len(),
    ensures
        r == ppnum_end(cs@, p as int),
        p <= r <= cs.len(),
{
    let mut i = p;
    loop
        invariant
            p <= i <= cs.len(),
            ppnum_end(cs@, i as int) == ppnum_end(cs@, p as int),
        decreases cs.len() - i,
    {
        if cs.len() - i > 1 && (cs[i] == 'e' || cs[i] == 'E' || cs[i] == 'p' || cs[i] == 'P') && (
        cs[i + 1] == '+' || cs[i + 1] == '-') {
            i += 2;
        } else if i < cs.len() && (is_alnum(cs[i]) || cs[i] == '.') {
            i += 1;
        } else {
            return i;
        }
    }
}

proof fn lemma_escaped_char_len(cs: Seq<char>, p: int)
    requires
        0 <= p < cs.len(),
    ensures
        escaped_char(cs, p) matches Ok((c, k)) ==> 1 <= k && p + k <= cs.len(),
        wide_escaped_char(cs, p) matches Ok((c, k)) ==> 1 <= k && p + k <= cs.len(),
{
    if cs[p] == 'x' {
        lemma_hex_run_end_bounds(cs, p + 1);
    }
}

/// Reads the string literal whose opening quote is at `start`: its end and
/// its bytes, or the error.
fn read_string_literal(cs: &[char], start: usize) -> (r: Result<(usize, Vec<u8>), (usize, LexError)>)
    requires
        start < cs.len(),
    ensures
        match r {
            Ok((end, bytes)) => scan_str(cs@, start as int, start + 1, Seq::empty()) == (
            StrScan::Done { end: end as int, bytes: bytes@ }) && start < end <= cs.len()
                && bytes@.len() <= 4 * cs.len(),
            Err((loc, e)) => scan_str(cs@, start as int, start + 1, Seq::empty()) == (
            StrScan::Fail { loc: loc as int, err: e }),
        },
{
    let mut pos = start + 1;
    let mut bytes: Vec<u8> = Vec::new();
    while pos < cs.len() && cs[pos] != '"'
        invariant
            start < pos <= cs.len(),
            bytes@.len() <= 4 * pos,
            scan_str(cs@, start as int, pos as int, bytes@) == scan_str(
                cs@,
                start as int,
                start + 1,
                Seq::empty(),
            ),
        decreases cs.len() - pos,
    {
        if cs[pos] == '\n' || cs[pos] == '\0' {
            return Err((start, LexError::UnclosedString));
        }
        if cs[pos] == '\\' {
            pos += 1;
            if pos >= cs.len() {
                return Err((start, LexError::UnclosedString));
            }
            proof {
                lemma_escaped_char_len(cs@, pos as int);
            }
            match read_escaped_char(cs, pos) {
                Ok((c, consumed)) => {
                    encode_utf8(c as u32, &mut bytes);
                    pos += consumed;
                },
                Err(e) => {
                    return Err((pos, e));
                },
            }
            continue;
        } else {
            encode_utf8(cs[pos] as u32, &mut bytes);
        }
        pos += 1;
    }
    if pos >= cs.len() {
        return Err((start, LexError::UnclosedString));
    }
    Ok((pos + 1, bytes))
}

fn close_char_exec(cs: &[char], p: usize, val: i64) -> (r: Result<(usize, i64), (usize, LexError)>)
    requires
        p <= cs.len(),
    ensures
        match r {
            Ok((end, v)) => close_char(cs@, p as int, val) == (CharScan::Done {
                end: end as int,
                val: v,
            }) && end <= cs.len() && end == p + 1,
            Err((loc, e)) => close_char(cs@, p as int, val) == (CharScan::Fail {
                loc: loc as int,
                err: e,
            }),
        },
{
    if p >= cs.len() || cs[p] != '\'' {
        Err((p, LexError::UnclosedChar))
    } else {
        Ok((p + 1, val))
    }
}

/// Reads a plain character constant whose opening quote is at `start`.
fn read_char_literal(cs: &[char], start: usize) -> (r: Result<(usize, i64), (usize, LexError)>)
    requires
        start < cs.len(),
    ensures
        match r {
            Ok((end, v)) => scan_char(cs@, start as int, start + 1) == (CharScan::Done {
                end: end as int,
                val: v,
            }) && start < end <= cs.len(),
            Err((loc, e)) => scan_char(cs@, start as int, start + 1) == (CharScan::Fail {
                loc: loc as int,
                err: e,
            }),
        },
{
    let mut pos = start + 1;
    if pos >= cs.len() {
        return Err((start, LexError::UnclosedChar));
    }
    if cs[pos] == '\\' {
        pos += 1;
        if pos >= cs.len() {
            return Err((start, LexError::UnclosedChar));
        }
        proof {
            lemma_escaped_char_len(cs@, pos as int);
        }
        match read_escaped_char(cs, pos) {
            Ok((c, consumed)) => close_char_exec(cs, pos + consumed, (c as u8) as i8 as i64),
            Err(e) => Err((pos, e)),
        }
    } else {
        let c = cs[pos];
        close_char_exec(cs, pos + 1, ((c as u32) as u8 as i8) as i64)
    }
}

/// Reads a wide character constant whose prefix letter is at `start`.
fn read_wide_char_literal(cs: &[char], start: usize) -> (r: Result<(usize, i64), (usize, LexError)>)
    requires
        start + 1 < cs.len(),
    ensures
        match r {
            Ok((end, v)) => scan_wide_char(cs@, start as int, start + 2) == (CharScan::Done {
                end: end as int,
                val: v,
            }) && start < end <= cs.len(),
            Err((loc, e)) => scan_wide_char(cs@, start as int, start + 2) == (CharScan::Fail {
                loc: loc as int,
                err: e,
            }),
        },
{
    let mut pos = start + 2;
    if pos >= cs.len() {
        return Err((start, LexError::UnclosedChar));
    }
    if cs[pos] == '\\' {
        pos += 1;
        if pos >= cs.len() {
            return Err((start, LexError::UnclosedChar));
        }
        proof {
            lemma_escaped_char_len(cs@, pos as int);
        }
        match read_wide_escaped_char(cs, pos) {
            Ok((v, consumed)) => close_char_exec(cs, pos + consumed, v),
            Err(e) => Err((pos, e)),
        }
    } else {
        let c = cs[pos];
        close_char_exec(cs, pos + 1, ((c as u32) as i32) as i64)
    }
}


/// One step of the tokenizer, as computed.
pub enum Step {
    Skip(usize, bool, bool),
    Emit(Token, usize),
    Fail(usize, LexError),
}

fn lex_one(cs: &[char], p: usize, at_bol: bool, has_space: bool, file_no: usize) -> (r: Step)
    requires
        p < cs.len(),
        cs.len() <= usize::MAX / 8,
    ensures
        match r {
            Step::Skip(pos, a, h) => lex_step(cs@, p as int, at_bol, has_space, file_no) == (
            LexStep::Skip { pos: pos as int, at_bol: a, has_space: h }) && p < pos <= cs.len(),
            Step::Emit(t, pos) => lex_step(cs@, p as int, at_bol, has_space, file_no) == (
            LexStep::Emit { tok: t@, pos: pos as int }) && p < pos <= cs.len(),
            Step::Fail(loc, e) => lex_step(cs@, p as int, at_bol, has_space, file_no) == (
            LexStep::Fail { loc: loc as int, err: e }),
        },
{
    let c = cs[p];
    if c == '\n' {
        return Step::Skip(p + 1, true, false);
    }
    if is_whitespace(c) {
        return Step::Skip(p + 1, at_bol, true);
    }
    if at2_exec(cs, p, '/', '/') {
        let end = skip_line_comment(cs, p + 2);
        return Step::Skip(end, at_bol, true);
    }
    if at2_exec(cs, p, '/', '*') {
        let end = skip_block_comment(cs, p + 2);
        return Step::Skip(end, at_bol, true);
    }
    if c == '"' {
        match read_string_literal(cs, p) {
            Ok((end, bytes)) => {
                let len = bytes.len();
                let mut tok = new_token(TokenKind::Str, p, end, at_bol, has_space, file_no);
                let ty = Type::new_array(Type::new_char(), (len + 1) as i64);
                tok.ty = Some(ty);
                tok.str = Some(bytes);
                return Step::Emit(tok, end);
            },
            Err((loc, e)) => {
                return Step::Fail(loc, e);
            },
        }
    }
    if p + 1 < cs.len() && (c == 'L' || c == 'u') && cs[p + 1] == '\'' {
        match read_wide_char_literal(cs, p) {
            Ok((end, v)) => {
                let mut tok = new_token(TokenKind::Num, p, end, at_bol, has_space, file_no);
                if c == 'u' {
                    tok.val = v & 0xffff;
                    tok.ty = Some(Type::new_ushort());
                } else {
                    tok.val = v;
                    tok.ty = Some(Type::new_int());
                }
                return Step::Emit(tok, end);
            },
            Err((loc, e)) => {
                return Step::Fail(loc, e);
            },
        }
    }
    if c == '\'' {
        match read_char_literal(cs, p) {
            Ok((end, v)) => {
                let mut tok = new_token(TokenKind::Num, p, end, at_bol, has_space, file_no);
                tok.val = v;
                tok.ty = Some(Type::new_int());
                return Step::Emit(tok, end);
            },
            Err((loc, e)) => {
                return Step::Fail(loc, e);
            },
        }
    }
    if is_digit(c) || (c == '.' && p + 1 < cs.len() && is_digit(cs[p + 1])) {
        let end = scan_ppnum(cs, p + 1);
        let tok = new_token(TokenKind::PpNum, p, end, at_bol, has_space, file_no);
        return Step::Emit(tok, end);
    }
    if is_alpha(c) || c == '_' {
        assert(ident_end(cs@, p as int) == ident_end(cs@, p + 1));
        let end = scan_ident(cs, p + 1);
        let tok = new_token(TokenKind::Ident, p, end, at_bol, has_space, file_no);
        return Step::Emit(tok, end);
    }
    match read_punct(cs, p) {
        Some(len) => {
            let tok = new_token(TokenKind::Punct, p, p + len, at_bol, has_space, file_no);
            Step::Emit(tok, p + len)
        },
        None => Step::Fail(p, LexError::InvalidToken),
    }
}

proof fn lemma_lex_skip(cs: Seq<char>, p: int, a: bool, h: bool, f: usize, pos: int, a2: bool, h2: bool)
    requires
        0 <= p < cs.len(),
        p < pos <= cs.len(),
        lex_step(cs, p, a, h, f) == (LexStep::Skip { pos, at_bol: a2, has_space: h2 }),
    ensures
        lex(cs, p, a, h, f) == lex(cs, pos, a2, h2, f),
{
}

proof fn lemma_lex_emit(cs: Seq<char>, p: int, a: bool, h: bool, f: usize, tok: TokenV, pos: int)
    requires
        0 <= p < cs.len(),
        p < pos <= cs.len(),
        lex_step(cs, p, a, h, f) == (LexStep::Emit { tok, pos }),
    ensures
        lex(cs, p, a, h, f) == seq![tok] + lex(cs, pos, false, false, f),
{
}

proof fn lemma_lex_fail(cs: Seq<char>, p: int, a: bool, h: bool, f: usize, loc: int, e: LexError)
    requires
        0 <= p < cs.len(),
        lex_step(cs, p, a, h, f) == (LexStep::Fail { loc, err: e }),
    ensures
        lex(cs, p, a, h, f) == seq![error_token(f, loc, e)],
{
}

/// Whether a token is one that scanning emits: an identifier, punctuator,
/// string literal, number or preprocessing number of file `file_no`.
pub open spec fn emitted_kind(t: TokenV, file_no: usize) -> bool {
    &&& t.file_no == file_no
    &&& (t.kind == TokenKind::Ident || t.kind == TokenKind::Punct || t.kind == TokenKind::Str
        || t.kind == TokenKind::Num || t.kind == TokenKind::PpNum)
}

proof fn lemma_scan_str_fail_loc(cs: Seq<char>, start: int, p: int, acc: Seq<u8>)
    requires
        start <= p,
    ensures
        scan_str(cs, start, p, acc) matches StrScan::Fail { loc, err } ==> start <= loc,
    decreases cs.len() - p,
{
    if 0 <= p < cs.len() && cs[p] != '"' && cs[p] != '\n' && cs[p] != '\0' {
        if cs[p] == '\\' {
            if p + 1 < cs.len() {
                match escaped_char(cs, p + 1) {
                    Ok((c, k)) => if k >= 1 && p + 1 + k <= cs.len() {
                        lemma_scan_str_fail_loc(cs, start, p + 1 + k, acc + utf8_encode(c as u32));
                    },
                    Err(e) => {},
                }
            }
        } else {
            lemma_scan_str_fail_loc(cs, start, p + 1, acc + utf8_encode(cs[p] as u32));
        }
    }
}

/// An error met while scanning at `p` is reported at `p` or after it.
proof fn lemma_fail_loc(cs: Seq<char>, p: int, a: bool, h: bool, f: usize, loc: int, e: LexError)
    requires
        0 <= p < cs.len(),
        lex_step(cs, p, a, h, f) == (LexStep::Fail { loc, err: e }),
    ensures
        p <= loc,
{
    lemma_scan_str_fail_loc(cs, p, p + 1, Seq::empty());
    if p + 1 < cs.len() {
        lemma_escaped_char_len(cs, p + 1);
    }
    if p + 2 < cs.len() {
        lemma_escaped_char_len(cs, p + 2);
    }
    if p + 3 < cs.len() {
        lemma_escaped_char_len(cs, p + 3);
    }
}

proof fn lemma_emit_shape(cs: Seq<char>, p: int, a: bool, h: bool, f: usize, tok: TokenV, pos: int)
    requires
        0 <= p < cs.len(),
        p < pos <= cs.len(),
        cs.len() <= usize::MAX / 8,
        lex_step(cs, p, a, h, f) == (LexStep::Emit { tok, pos }),
    ensures
        tok.loc == p,
        tok.loc + tok.len == pos,
        emitted_kind(tok, f),
{
}

/// Whether `ts` are tokens that scanning up to position `pos` emitted:
/// tokens of the emitted kinds of file `file_no`, each ending where or
/// before the next begins, and the last ending at `pos` or before.
pub open spec fn scanned(ts: Seq<TokenV>, file_no: usize, pos: int) -> bool {
    &&& forall|k: int| 0 <= k < ts.len() ==> emitted_kind(#[trigger] ts[k], file_no)
    &&& forall|k: int| 0 <= k < ts.len() - 1 ==> #[trigger] ts[k].loc + ts[k].len <= ts[k + 1].loc
    &&& ts.len() > 0 ==> ts.last().loc + ts.last().len <= pos
}

/// Whether `ts` is a token list of file `file_no` as tokenizing makes it:
/// it ends in one end token (an error token when tokenizing failed), the
/// tokens before it are of the emitted kinds and each ends where or before
/// the next begins. When tokenizing did not fail, the end token stands at
/// the end of the contents `cs`, and each token's line number is one more
/// than the newlines before it.
pub open spec fn token_list_shape(cs: Seq<char>, file_no: usize, ts: Seq<TokenV>) -> bool {
    &&& ts.len() >= 1
    &&& ts.last().kind == TokenKind::Eof
    &&& ts.last().file_no == file_no
    &&& forall|k: int| 0 <= k < ts.len() - 1 ==> emitted_kind(#[trigger] ts[k], file_no)
    &&& forall|k: int| 0 <= k < ts.len() - 1 ==> #[trigger] ts[k].loc + ts[k].len <= ts[k + 1].loc
    &&& !lex_failed(ts) ==> {
        &&& ts.last().loc == cs.len()
        &&& forall|k: int| 0 <= k < ts.len() ==> #[trigger] ts[k].line_no == line_of(cs, ts[k].loc as int)
    }
}

proof fn lemma_newlines_bound(s: Seq<char>)
    ensures
        newlines(s) <= s.len(),
    decreases s.len(),
{
    if s.len() > 0 {
        lemma_newlines_bound(s.drop_last());
    }
}

proof fn lemma_scanned_push(ts: Seq<TokenV>, t: TokenV, f: usize, p: int, pos: int)
    requires
        scanned(ts, f, p),
        emitted_kind(t, f),
        t.loc == p,
        t.loc + t.len == pos,
    ensures
        scanned(ts.push(t), f, pos),
{
    let s = ts.push(t);
    assert forall|k: int| 0 <= k < s.len() - 1 implies #[trigger] s[k].loc + s[k].len <= s[k + 1].loc by {
        assert(s[k] == ts[k]);
        if k < ts.len() - 1 {
            assert(s[k + 1] == ts[k + 1]);
        }
    }
    assert forall|k: int| 0 <= k < s.len() implies emitted_kind(#[trigger] s[k], f) by {
        if k < ts.len() {
            assert(s[k] == ts[k]);
        }
    }
}

proof fn lemma_failed_shape(cs: Seq<char>, f: usize, ts: Seq<TokenV>, t: TokenV, p: int)
    requires
        scanned(ts, f, p),
        p <= t.loc,
        t.kind == TokenKind::Eof,
        t.file_no == f,
        t.str.is_some(),
    ensures
        token_list_shape(cs, f, ts + seq![t]),
{
    let s = ts + seq![t];
    assert(s.last() == t);
    assert forall|k: int| 0 <= k < s.len() - 1 implies emitted_kind(#[trigger] s[k], f) by {
        assert(s[k] == ts[k]);
    }
    assert forall|k: int| 0 <= k < s.len() - 1 implies #[trigger] s[k].loc + s[k].len <= s[k + 1].loc by {
        assert(s[k] == ts[k]);
        if k < ts.len() - 1 {
            assert(s[k + 1] == ts[k + 1]);
        } else {
            assert(s[k + 1] == t);
        }
    }
}

#[verifier::rlimit(40)]
proof fn lemma_finished_shape(cs: Seq<char>, f: usize, ts: Seq<TokenV>, pre: Seq<TokenV>, post: Seq<TokenV>)
    requires
        scanned(ts, f, cs.len() as int),
        cs.len() <= usize::MAX / 8,
        pre.len() == ts.len() + 1,
        forall|k: int| 0 <= k < ts.len() ==> pre[k] == ts[k],
        pre.last().kind == TokenKind::Eof,
        pre.last().file_no == f,
        pre.last().loc == cs.len(),
        pre.last().str.is_none(),
        post == with_lines(cs, pre),
    ensures
        token_list_shape(cs, f, post),
{
    let n = pre.len();
    assert(post.len() == n);
    assert forall|k: int| 0 <= k < n implies {
        &&& (#[trigger] post[k]).kind == pre[k].kind
        &&& post[k].loc == pre[k].loc
        &&& post[k].len == pre[k].len
        &&& post[k].file_no == pre[k].file_no
        &&& post[k].str == pre[k].str
        &&& post[k].line_no == line_of(cs, pre[k].loc as int)
    } by {
        lemma_newlines_bound(cs.take(pre[k].loc as int));
        assert(pre[k].loc <= cs.len()) by {
            if k < ts.len() {
                assert(pre[k] == ts[k]);
                lemma_scanned_loc(ts, f, cs.len() as int, k);
            }
        }
    }
    assert(!lex_failed(post));
    assert forall|k: int| 0 <= k < n - 1 implies emitted_kind(#[trigger] post[k], f) by {
        assert(pre[k] == ts[k]);
        assert(emitted_kind(ts[k], f));
    }
    assert forall|k: int| 0 <= k < n - 1 implies #[trigger] post[k].loc + post[k].len
        <= post[k + 1].loc by {
        assert(pre[k] == ts[k]);
        if k < n - 2 {
            assert(pre[k + 1] == ts[k + 1]);
            assert(ts[k].loc + ts[k].len <= ts[k + 1].loc);
        } else {
            assert(pre[k] == ts.last());
        }
    }
    assert forall|k: int| 0 <= k < n implies #[trigger] post[k].line_no == line_of(
        cs,
        post[k].loc as int,
    ) by {
        assert(post[k].loc == pre[k].loc);
    }
}

/// Every token scanned up to `pos` ends at `pos` or before.
proof fn lemma_scanned_loc(ts: Seq<TokenV>, f: usize, pos: int, k: int)
    requires
        scanned(ts, f, pos),
        0 <= k < ts.len(),
    ensures
        ts[k].loc + ts[k].len <= pos,
    decreases ts.len() - k,
{
    if k < ts.len() - 1 {
        assert(ts[k].loc + ts[k].len <= ts[k + 1].loc);
        lemma_scanned_loc(ts, f, pos, k + 1);
    }
}

/// Fills in the line number of each token from its position.
fn add_line_numbers(cs: &[char], toks: &mut Vec<Token>)
    requires
        forall|i: int| 0 <= i < old(toks)@.len() ==> old(toks)@[i].loc <= cs.len(),
        forall|i: int, j: int|
            0 <= i <= j < old(toks)@.len() ==> old(toks)@[i].loc <= old(toks)@[j].loc,
        cs.len() < usize::MAX,
    ensures
        views(final(toks)@) == with_lines(cs@, views(old(toks)@)),
{
    let mut p: usize = 0;
    let mut n: usize = 1;
    let mut i: usize = 0;
    let ghost orig = toks@;
    while i < toks.len()
        invariant
            toks@.len() == orig.len(),
            0 <= i <= toks@.len(),
            forall|k: int| 0 <= k < orig.len() ==> orig[k].loc <= cs.len(),
            forall|a: int, b: int| 0 <= a <= b < orig.len() ==> orig[a].loc <= orig[b].loc,
            i < orig.len() ==> p <= orig[i as int].loc,
            p <= cs.len(),
            n == newlines(cs@.take(p as int)) + 1,
            n <= p + 1,
            cs.len() < usize::MAX,
            forall|k: int| i <= k < orig.len() ==> toks@[k] == orig[k],
            forall|k: int| 0 <= k < i ==> (#[trigger] toks@[k])@ == (TokenV {
                line_no: line_of(cs@, orig[k].loc as int) as usize,
                ..orig[k]@
            }),
        decreases toks@.len() - i,
    {
        let loc = toks[i].loc;
        while p < loc
            invariant
                p <= loc <= cs.len(),
                n == newlines(cs@.take(p as int)) + 1,
                n <= p + 1,
                cs.len() < usize::MAX,
            decreases loc - p,
        {
            assert(cs@.take(p + 1).drop_last() =~= cs@.take(p as int));
            if cs[p] == '\n' {
                n += 1;
            }
            p += 1;
        }
        let mut t = clone_token(&toks[i]);
        t.line_no = n;
        toks.set(i, t);
        i += 1;
    }
    assert(views(toks@) =~= with_lines(cs@, views(orig)));
}

/// Splits a file's contents into tokens. The last token is the end token;
/// when the contents hold something that is no token, the list ends early
/// with an end token that carries the error message, and no line numbers are
/// filled in.
#[verifier::rlimit(30)]
pub fn tokenize(file: &File) -> (r: Vec<Token>)
    requires
        file.contents.len() <= usize::MAX / 8,
    ensures
        views(r@) == spec_tokenize(file.contents@, file.file_no),
        token_list_shape(file.contents@, file.file_no, views(r@)),
{
    let cs = &file.contents;
    let file_no = file.file_no;
    let mut toks: Vec<Token> = Vec::new();
    let mut pos: usize = 0;
    let mut at_bol = true;
    let mut has_space = false;
    while pos < cs.len()
        invariant
            cs@ == file.contents@,
            file_no == file.file_no,
            cs.len() <= usize::MAX / 8,
            pos <= cs.len(),
            views(toks@) + lex(cs@, pos as int, at_bol, has_space, file_no) == lex(
                cs@,
                0,
                true,
                false,
                file_no,
            ),
            forall|k: int| 0 <= k < toks@.len() ==> toks@[k].loc <= pos,
            forall|a: int, b: int| 0 <= a <= b < toks@.len() ==> toks@[a].loc <= toks@[b].loc,
            forall|k: int| 0 <= k < toks@.len() ==> toks@[k].str.is_none() || toks@[k].kind
                == TokenKind::Str,
            scanned(views(toks@), file_no, pos as int),
        decreases cs.len() - pos,
    {
        let ghost before = views(toks@);
        match lex_one(cs, pos, at_bol, has_space, file_no) {
            Step::Skip(p2, a, h) => {
                proof {
                    lemma_lex_skip(cs@, pos as int, at_bol, has_space, file_no, p2 as int, a, h);
                }
                pos = p2;
                at_bol = a;
                has_space = h;
            },
            Step::Emit(t, p2) => {
                let ghost tv = t@;
                proof {
                    lemma_lex_emit(cs@, pos as int, at_bol, has_space, file_no, tv, p2 as int);
                    lemma_emit_shape(cs@, pos as int, at_bol, has_space, file_no, tv, p2 as int);
                }
                toks.push(t);
                assert(views(toks@) =~= before.push(tv));
                proof {
                    lemma_scanned_push(before, tv, file_no, pos as int, p2 as int);
                }
                pos = p2;
                at_bol = false;
                has_space = false;
            },
            Step::Fail(loc, e) => {
                let t = make_error_token(file_no, loc, e);
                let ghost tv = t@;
                proof {
                    lemma_lex_fail(cs@, pos as int, at_bol, has_space, file_no, loc as int, e);
                }
                toks.push(t);
                assert(views(toks@) =~= before.push(tv));
                assert(views(toks@) =~= before + seq![tv]);
                assert(views(toks@).last() == tv);
                proof {
                    lemma_fail_loc(cs@, pos as int, at_bol, has_space, file_no, loc as int, e);
                    lemma_failed_shape(cs@, file_no, before, tv, pos as int);
                }
                return toks;
            },
        }
    }
    let ghost before = views(toks@);
    let eof = new_token(TokenKind::Eof, pos, pos, at_bol, has_space, file_no);
    toks.push(eof);
    assert(views(toks@) =~= before + lex(cs@, pos as int, at_bol, has_space, file_no));
    assert(!lex_failed(views(toks@)));
    let ghost pre = views(toks@);
    add_line_numbers(cs, &mut toks);
    proof {
        lemma_finished_shape(cs@, file_no, before, pre, views(toks@));
    }
    toks
}


// ---------------------------------------------------------------------------
// Preparing a file's contents

/// `\r\n` and lone `\r` become `\n`.
pub open spec fn canonical_newlines(s: Seq<char>) -> Seq<char>
    decreases s.len(),
{
    if s.len() == 0 {
        Seq::empty()
    } else if s[0] == '\r' && s.len() > 1 && s[1] == '\n' {
        seq!['\n'] + canonical_newlines(s.skip(2))
    } else if s[0] == '\r' {
        seq!['\n'] + canonical_newlines(s.skip(1))
    } else {
        seq![s[0]] + canonical_newlines(s.skip(1))
    }
}

/// Replaces `\r\n` and lone `\r` with `\n`.
pub fn canonicalize_newline(contents: &Vec<char>) -> (r: Vec<char>)
    ensures
        r@ == canonical_newlines(contents@),
{
    let b = contents;
    let mut out: Vec<char> = Vec::new();
    let mut i: usize = 0;
    assert(contents@.skip(0) =~= contents@);
    while i < b.len()
        invariant
            i <= b.len(),
            out@ + canonical_newlines(b@.skip(i as int)) == canonical_newlines(b@),
        decreases b.len() - i,
    {
        let ghost rest = b@.skip(i as int);
        if b[i] == '\r' && i + 1 < b.len() && b[i + 1] == '\n' {
            assert(rest.skip(2) =~= b@.skip(i + 2));
            i += 2;
            out.push('\n');
        } else if b[i] == '\r' {
            assert(rest.skip(1) =~= b@.skip(i + 1));
            i += 1;
            out.push('\n');
        } else {
            assert(rest.skip(1) =~= b@.skip(i + 1));
            out.push(b[i]);
            i += 1;
        }
        assert(out@ + canonical_newlines(b@.skip(i as int)) =~= canonical_newlines(b@));
    }
    assert(b@.skip(i as int) =~= Seq::<char>::empty());
    out
}

/// Removes backslash-newline pairs; the newlines removed are put back after
/// the next newline (or at the end), so that line numbers stay right.
/// `pending` is the number of newlines waiting to be put back.
pub open spec fn join_lines(s: Seq<char>, pending: nat) -> Seq<char>
    decreases s.len(),
{
    if s.len() == 0 {
        Seq::new(pending, |i: int| '\n')
    } else if s[0] == '\\' && s.len() > 1 && s[1] == '\n' {
        join_lines(s.skip(2), pending + 1)
    } else if s[0] == '\n' {
        seq!['\n'] + Seq::new(pending, |i: int| '\n') + join_lines(s.skip(1), 0)
    } else {
        seq![s[0]] + join_lines(s.skip(1), pending)
    }
}

/// Removes backslash-newline pairs, keeping the number of lines.
pub fn remove_backslash_newline(contents: &Vec<char>) -> (r: Vec<char>)
    ensures
        r@ == join_lines(contents@, 0),
{
    let b = contents;
    let mut out: Vec<char> = Vec::new();
    let mut i: usize = 0;
    let mut n: usize = 0;
    assert(contents@.skip(0) =~= contents@);
    while i < b.len()
        invariant
            i <= b.len(),
            n <= i,
            out@ + join_lines(b@.skip(i as int), n as nat) == join_lines(b@, 0),
        decreases b.len() - i,
    {
        let ghost rest = b@.skip(i as int);
        if b[i] == '\\' && i + 1 < b.len() && b[i + 1] == '\n' {
            assert(rest.skip(2) =~= b@.skip(i + 2));
            i += 2;
            n += 1;
        } else if b[i] == '\n' {
            assert(rest.skip(1) =~= b@.skip(i + 1));
            let ghost before = out@;
            out.push('\n');
            let mut k: usize = 0;
            while k < n
                invariant
                    k <= n,
                    out@ == before.push('\n') + Seq::new(k as nat, |j: int| '\n'),
                decreases n - k,
            {
                out.push('\n');
                k += 1;
                assert(out@ =~= before.push('\n') + Seq::new(k as nat, |j: int| '\n'));
            }
            assert(out@ =~= before + (seq!['\n'] + Seq::new(n as nat, |j: int| '\n')));
            n = 0;
            i += 1;
        } else {
            assert(rest.skip(1) =~= b@.skip(i + 1));
            out.push(b[i]);
            i += 1;
        }
        assert(out@ + join_lines(b@.skip(i as int), n as nat) =~= join_lines(b@, 0));
    }
    let ghost before = out@;
    let mut k: usize = 0;
    while k < n
        invariant
            k <= n,
            out@ == before + Seq::new(k as nat, |j: int| '\n'),
        decreases n - k,
    {
        out.push('\n');
        k += 1;
        assert(out@ =~= before + Seq::new(k as nat, |j: int| '\n'));
    }
    assert(b@.skip(i as int) =~= Seq::<char>::empty());
    out
}

/// The value of `len` hexadecimal digits at `p`, or 0 if one of them is
/// none or there are fewer than `len` characters.
pub open spec fn universal_value(s: Seq<char>, p: int, len: int) -> u32 {
    if p + len > s.len() {
        0
    } else if exists|i: int| p <= i < p + len && !spec_is_hex(#[trigger] s[i]) {
        0
    } else {
        hex_acc(s, p, p + len)
    }
}

/// Reads `len` hexadecimal digits at `p` as a code point; 0 if there are
/// fewer characters or one is no hexadecimal digit.
pub fn read_universal_char(s: &[char], p: usize, len: usize) -> (r: u32)
    requires
        p <= s.len(),
    ensures
        r == universal_value(s@, p as int, len as int),
{
    if s.len() - p < len {
        return 0;
    }
    let mut c: u32 = 0;
    let mut i: usize = p;
    while i < p + len
        invariant
            p <= i <= p + len <= s.len(),
            forall|k: int| p <= k < i ==> spec_is_hex(#[trigger] s@[k]),
            c == hex_acc(s@, p as int, i as int),
        decreases p + len - i,
    {
        if !is_hex(s[i]) {
            return 0;
        }
        let d = hex_value(s[i]);
        proof {
            lemma_hex_step(c, d);
        }
        c = (c << 4) + d;
        i += 1;
    }
    c
}

/// `\uXXXX` and `\UXXXXXXXX` escapes replaced by the characters they name;
/// `None` when one names a number that is no character.
pub open spec fn universal_chars(s: Seq<char>) -> Option<Seq<char>>
    decreases s.len(),
{
    if s.len() == 0 {
        Some(Seq::empty())
    } else if s.len() > 1 && s[0] == '\\' && (s[1] == 'u' || s[1] == 'U') {
        let len: int = if s[1] == 'u' {
            4
        } else {
            8
        };
        let c = universal_value(s, 2, len);
        if c != 0 {
            if !is_scalar(c) {
                None
            } else {
                match universal_chars(s.skip(2 + len)) {
                    Some(rest) => Some(seq![c as char] + rest),
                    None => None,
                }
            }
        } else {
            match universal_chars(s.skip(1)) {
                Some(rest) => Some(seq![s[0]] + rest),
                None => None,
            }
        }
    } else if s[0] == '\\' && s.len() > 1 {
        match universal_chars(s.skip(2)) {
            Some(rest) => Some(seq![s[0], s[1]] + rest),
            None => None,
        }
    } else {
        match universal_chars(s.skip(1)) {
            Some(rest) => Some(seq![s[0]] + rest),
            None => None,
        }
    }
}

/// Replaces universal character names by the characters they name. The
/// contents must name only valid characters (see `universal_chars_valid`).
pub fn convert_universal_chars(contents: &Vec<char>) -> (r: Vec<char>)
    requires
        universal_chars(contents@).is_some(),
    ensures
        Some(r@) == universal_chars(contents@),
{
    let b = contents;
    let mut out: Vec<char> = Vec::new();
    let mut p: usize = 0;
    assert(contents@.skip(0) =~= contents@);
    while p < b.len()
        invariant
            p <= b.len(),
            universal_chars(b@.skip(p as int)).is_some(),
            Some(out@ + universal_chars(b@.skip(p as int)).unwrap()) == universal_chars(b@),
        decreases b.len() - p,
    {
        let ghost rest = b@.skip(p as int);
        assert(rest[0] == b@[p as int]);
        if p + 1 < b.len() && b[p] == '\\' && (b[p + 1] == 'u' || b[p + 1] == 'U') {
            assert(rest[1] == b@[p + 1]);
            let len: usize = if b[p + 1] == 'u' {
                4
            } else {
                8
            };
            let c = read_universal_char(b, p + 2, len);
            assert(universal_value(rest, 2, len as int) == universal_value(b@, p + 2, len as int))
                by {
                if p + 2 + len <= b.len() {
                    assert forall|i: int| 2 <= i < 2 + len implies rest[i] == b@[p + i] by {}
                    assert(hex_acc(rest, 2, 2 + len) == hex_acc(b@, p + 2, p + 2 + len)) by {
                        lemma_hex_acc_shift(rest, b@, 2, 2 + len, p as int);
                    }
                    if exists|i: int| 2 <= i < 2 + len && !spec_is_hex(#[trigger] rest[i]) {
                        let i = choose|i: int| 2 <= i < 2 + len && !spec_is_hex(#[trigger] rest[i]);
                        assert(!spec_is_hex(b@[p + i]));
                    }
                    if exists|i: int| p + 2 <= i < p + 2 + len && !spec_is_hex(#[trigger] b@[i]) {
                        let i = choose|i: int| p + 2 <= i < p + 2 + len && !spec_is_hex(#[trigger] b@[i]);
                        assert(!spec_is_hex(rest[i - p]));
                    }
                }
            }
            if c != 0 {
                let ch = match char_from_u32(c) {
                    Some(x) => x,
                    None => {
                        assert(false);
                        '\0'
                    },
                };
                assert(rest.skip(2 + len) =~= b@.skip(p + 2 + len));
                out.push(ch);
                p += 2 + len;
            } else {
                assert(rest.skip(1) =~= b@.skip(p + 1));
                out.push(b[p]);
                p += 1;
            }
        } else if b[p] == '\\' && p + 1 < b.len() {
            assert(rest[1] == b@[p + 1]);
            assert(rest.skip(2) =~= b@.skip(p + 2));
            out.push(b[p]);
            out.push(b[p + 1]);
            p += 2;
        } else {
            assert(rest.skip(1) =~= b@.skip(p + 1));
            out.push(b[p]);
            p += 1;
        }
        assert(Some(out@ + universal_chars(b@.skip(p as int)).unwrap()) == universal_chars(b@));
    }
    assert(b@.skip(p as int) =~= Seq::<char>::empty());
    assert(out@ + Seq::<char>::empty() =~= out@);
    out
}

proof fn lemma_hex_acc_shift(a: Seq<char>, b: Seq<char>, start: int, end: int, off: int)
    requires
        0 <= start <= end <= a.len(),
        end + off <= b.len(),
        0 <= start + off,
        forall|i: int| start <= i < end ==> a[i] == b[i + off],
    ensures
        hex_acc(a, start, end) == hex_acc(b, start + off, end + off),
    decreases end - start,
{
    if end > start {
        lemma_hex_acc_shift(a, b, start, end - 1, off);
    }
}

/// Whether all universal character names in `contents` name characters.
pub fn universal_chars_valid(contents: &Vec<char>) -> (r: bool)
    ensures
        r == universal_chars(contents@).is_some(),
{
    let b = contents;
    let mut p: usize = 0;
    assert(contents@.skip(0) =~= contents@);
    while p < b.len()
        invariant
            p <= b.len(),
            b@ == contents@,
            universal_chars(b@.skip(p as int)).is_some() == universal_chars(b@).is_some(),
        decreases b.len() - p,
    {
        let ghost rest = b@.skip(p as int);
        assert(rest[0] == b@[p as int]);
        if p + 1 < b.len() && b[p] == '\\' && (b[p + 1] == 'u' || b[p + 1] == 'U') {
            assert(rest[1] == b@[p + 1]);
            let len: usize = if b[p + 1] == 'u' {
                4
            } else {
                8
            };
            let c = read_universal_char(b, p + 2, len);
            assert(universal_value(rest, 2, len as int) == universal_value(b@, p + 2, len as int))
                by {
                if p + 2 + len <= b.len() {
                    assert(hex_acc(rest, 2, 2 + len) == hex_acc(b@, p + 2, p + 2 + len)) by {
                        lemma_hex_acc_shift(rest, b@, 2, 2 + len, p as int);
                    }
                    if exists|i: int| 2 <= i < 2 + len && !spec_is_hex(#[trigger] rest[i]) {
                        let i = choose|i: int| 2 <= i < 2 + len && !spec_is_hex(#[trigger] rest[i]);
                        assert(!spec_is_hex(b@[p + i]));
                    }
                    if exists|i: int| p + 2 <= i < p + 2 + len && !spec_is_hex(#[trigger] b@[i]) {
                        let i = choose|i: int| p + 2 <= i < p + 2 + len && !spec_is_hex(#[trigger] b@[i]);
                        assert(!spec_is_hex(rest[i - p]));
                    }
                }
            }
            if c != 0 {
                if char_from_u32(c).is_none() {
                    assert(universal_chars(rest).is_none());
                    return false;
                }
                assert(rest.skip(2 + len) =~= b@.skip(p + 2 + len));
                p += 2 + len;
            } else {
                assert(rest.skip(1) =~= b@.skip(p + 1));
                p += 1;
            }
        } else if b[p] == '\\' && p + 1 < b.len() {
            assert(rest.skip(2) =~= b@.skip(p + 2));
            p += 2;
        } else {
            assert(rest.skip(1) =~= b@.skip(p + 1));
            p += 1;
        }
    }
    assert(b@.skip(p as int) =~= Seq::<char>::empty());
    true
}

/// A file's raw contents made ready for the tokenizer: a final newline is
/// added when missing, newlines are made canonical, backslash-newlines are
/// removed and universal character names are replaced.
pub open spec fn spec_prepared(raw: Seq<char>) -> Option<Seq<char>> {
    let s = if raw.len() > 0 && raw.last() != '\n' {
        raw.push('\n')
    } else {
        raw
    };
    universal_chars(join_lines(canonical_newlines(s), 0))
}

/// Prepares a file's raw contents for the tokenizer; `None` when a universal
/// character name names no character.
pub fn prepare_contents(raw: Vec<char>) -> (r: Option<Vec<char>>)
    ensures
        match r {
            Some(v) => spec_prepared(raw@) == Some(v@),
            None => spec_prepared(raw@).is_none(),
        },
{
    let mut contents = raw;
    if contents.len() > 0 && contents[contents.len() - 1] != '\n' {
        contents.push('\n');
    }
    let a = canonicalize_newline(&contents);
    let b = remove_backslash_newline(&a);
    if !universal_chars_valid(&b) {
        return None;
    }
    Some(convert_universal_chars(&b))
}


// ---------------------------------------------------------------------------
// Files, token text and diagnostics

/// Whether some file has number `file_no`.
pub open spec fn has_file(files: Seq<File>, file_no: usize) -> bool {
    exists|i: int| 0 <= i < files.len() && files[i].file_no == file_no
}

/// The first file with number `file_no`.
pub open spec fn file_index(files: Seq<File>, file_no: usize) -> int
    recommends
        has_file(files, file_no),
{
    choose|i: int|
        0 <= i < files.len() && files[i].file_no == file_no && forall|j: int|
            0 <= j < i ==> files[j].file_no != file_no
}

proof fn lemma_file_index(files: Seq<File>, file_no: usize, i: int)
    requires
        0 <= i < files.len(),
        files[i].file_no == file_no,
        forall|j: int| 0 <= j < i ==> files[j].file_no != file_no,
    ensures
        file_index(files, file_no) == i,
{
    let k = file_index(files, file_no);
    assert(0 <= k < files.len() && files[k].file_no == file_no && forall|j: int|
        0 <= j < k ==> files[j].file_no != file_no);
    if k < i {
        assert(files[k].file_no != file_no);
    }
    if i < k {
        assert(files[i].file_no != file_no);
    }
}

/// The first file with a number is one of the files and has that number.
pub proof fn lemma_file_index_valid(files: Seq<File>, file_no: usize)
    requires
        has_file(files, file_no),
    ensures
        0 <= file_index(files, file_no) < files.len(),
        files[file_index(files, file_no)].file_no == file_no,
        forall|j: int| 0 <= j < file_index(files, file_no) ==> files[j].file_no != file_no,
{
    let i = choose|i: int| 0 <= i < files.len() && files[i].file_no == file_no;
    lemma_first_file(files, file_no, i);
}

proof fn lemma_first_file(files: Seq<File>, file_no: usize, i: int)
    requires
        0 <= i < files.len(),
        files[i].file_no == file_no,
    ensures
        0 <= file_index(files, file_no) < files.len(),
        files[file_index(files, file_no)].file_no == file_no,
        forall|j: int| 0 <= j < file_index(files, file_no) ==> files[j].file_no != file_no,
    decreases i,
{
    if exists|j: int| 0 <= j < i && files[j].file_no == file_no {
        let j = choose|j: int| 0 <= j < i && files[j].file_no == file_no;
        lemma_first_file(files, file_no, j);
    } else {
        lemma_file_index(files, file_no, i);
    }
}

/// The position of the first file with number `file_no`, if any.
pub fn find_file(files: &[File], file_no: usize) -> (r: Option<usize>)
    ensures
        match r {
            Some(i) => has_file(files@, file_no) && i == file_index(files@, file_no) && i
                < files.len(),
            None => !has_file(files@, file_no),
        },
{
    let mut i: usize = 0;
    while i < files.len()
        invariant
            i <= files.len(),
            forall|j: int| 0 <= j < i ==> files@[j].file_no != file_no,
        decreases files.len() - i,
    {
        if files[i].file_no == file_no {
            proof {
                lemma_file_index(files@, file_no, i as int);
            }
            return Some(i);
        }
        i += 1;
    }
    None
}

/// The characters of `cs` from `loc`, at most `len` of them.
pub open spec fn text_at(cs: Seq<char>, loc: int, len: int) -> Seq<char> {
    let a = if loc < cs.len() {
        loc
    } else {
        cs.len() as int
    };
    let b = if loc + len < cs.len() {
        loc + len
    } else {
        cs.len() as int
    };
    cs.subrange(a, b)
}

/// The text of a token in its file.
pub open spec fn token_text(files: Seq<File>, tok: TokenV) -> Seq<char> {
    text_at(files[file_index(files, tok.file_no)].contents@, tok.loc as int, tok.len as int)
}

/// The characters of `cs` from `loc`, at most `len` of them.
pub fn text_slice(cs: &[char], loc: usize, len: usize) -> (r: Vec<char>)
    ensures
        r@ == text_at(cs@, loc as int, len as int),
{
    let a = if loc < cs.len() {
        loc
    } else {
        cs.len()
    };
    let b = if len < cs.len() - a {
        a + len
    } else {
        cs.len()
    };
    let mut out: Vec<char> = Vec::new();
    let mut i = a;
    while i < b
        invariant
            a <= i <= b <= cs.len(),
            out@ == cs@.subrange(a as int, i as int),
        decreases b - i,
    {
        out.push(cs[i]);
        i += 1;
        assert(out@ =~= cs@.subrange(a as int, i as int));
    }
    out
}

/// Whether `tok` is an identifier, keyword or punctuator spelled `s`.
pub open spec fn spec_equal(files: Seq<File>, tok: TokenV, s: Seq<char>) -> bool {
    &&& has_file(files, tok.file_no)
    &&& (tok.kind == TokenKind::Punct || tok.kind == TokenKind::Keyword || tok.kind
        == TokenKind::Ident)
    &&& token_text(files, tok) == s
}

/// Whether `tok` is an identifier, keyword or punctuator spelled `s`.
pub fn equal(files: &[File], tok: &Token, s: &str) -> (r: bool)
    ensures
        r == spec_equal(files@, tok@, s@),
{
    let fi = match find_file(files, tok.file_no) {
        Some(i) => i,
        None => return false,
    };
    if !(tok.kind == TokenKind::Punct || tok.kind == TokenKind::Keyword || tok.kind
        == TokenKind::Ident) {
        return false;
    }
    let text = text_slice(&files[fi].contents, tok.loc, tok.len);
    let want = str_to_chars(s);
    chars_eq(&text, &want)
}

/// A list of tokens as the tokenizer hands it over: it ends in an end token.
pub open spec fn well_ended(toks: Seq<Token>) -> bool {
    toks.len() > 0 && toks.last().kind == TokenKind::Eof
}

/// If the token at `i` is spelled `s`, the position after it; otherwise the
/// "expected" error at that token.
pub fn skip(files: &[File], toks: &[Token], i: usize, s: &str) -> (r: Result<usize, String>)
    requires
        well_ended(toks@),
        i < toks.len(),
        has_file(files@, toks@[i as int].file_no),
        s@.len() <= usize::MAX / 16,
        files@[file_index(files@, toks@[i as int].file_no)].contents@.len() <= usize::MAX / 16,
        files@[file_index(files@, toks@[i as int].file_no)].name@.len() <= usize::MAX / 16,
    ensures
        spec_equal(files@, toks@[i as int]@, s@) ==> r == Ok::<usize, String>((i + 1) as usize),
        !spec_equal(files@, toks@[i as int]@, s@) ==> r.is_err() && r.unwrap_err()@
            == token_error_text(
            files@,
            toks@[i as int]@,
            seq!['e', 'x', 'p', 'e', 'c', 't', 'e', 'd', ' ', '\''] + s@ + seq!['\''],
        ),
{
    if equal(files, &toks[i], s) {
        return Ok(i + 1);
    }
    let mut msg = String::new();
    push_chars(&mut msg, &['e', 'x', 'p', 'e', 'c', 't', 'e', 'd', ' ', '\'']);
    let sc = str_to_chars(s);
    push_chars(&mut msg, &sc);
    push_char(&mut msg, '\'');
    assert(msg@ =~= seq!['e', 'x', 'p', 'e', 'c', 't', 'e', 'd', ' ', '\''] + s@ + seq!['\'']);
    Err(error_tok(files, &toks[i], msg.as_str()))
}

/// If the token at `i` is spelled `s`, `(true, i + 1)`; otherwise `(false, i)`.
pub fn consume(files: &[File], toks: &[Token], i: usize, s: &str) -> (r: (bool, usize))
    requires
        well_ended(toks@),
        i < toks.len(),
    ensures
        r == (if spec_equal(files@, toks@[i as int]@, s@) {
            (true, (i + 1) as usize)
        } else {
            (false, i)
        }),
{
    if equal(files, &toks[i], s) {
        (true, i + 1)
    } else {
        (false, i)
    }
}

/// The start of the line holding position `i`.
pub open spec fn line_start(cs: Seq<char>, i: int) -> int
    decreases i,
{
    if i <= 0 {
        0
    } else if cs[i - 1] == '\n' {
        i
    } else {
        line_start(cs, i - 1)
    }
}

/// The end of the line holding position `i` (its newline, or the end).
pub open spec fn line_end(cs: Seq<char>, i: int) -> int
    decreases cs.len() - i,
{
    if i >= cs.len() || i < 0 {
        i
    } else if cs[i] == '\n' {
        i
    } else {
        line_end(cs, i + 1)
    }
}

/// `file:line: ` before a diagnostic.
pub open spec fn diag_header(filename: Seq<char>, line_no: nat) -> Seq<char> {
    filename + seq![':'] + decimal(line_no) + seq![':', ' ']
}

/// A diagnostic: the header and the source line, then a caret under
/// position `loc` (counted in UTF-8 bytes) followed by the message.
pub open spec fn diag_text(
    filename: Seq<char>,
    cs: Seq<char>,
    loc: int,
    line_no: nat,
    msg: Seq<char>,
) -> Seq<char> {
    let l = if loc < cs.len() {
        loc
    } else {
        cs.len() as int
    };
    let ls = line_start(cs, l);
    let le = line_end(cs, l);
    let header = diag_header(filename, line_no);
    header + cs.subrange(ls, le) + seq!['\n'] + spaces(
        utf8_len_seq(cs.subrange(ls, l)) + utf8_len_seq(header),
    ) + seq!['^', ' '] + msg + seq!['\n']
}

/// The diagnostic for a token: at its position, with its line number.
pub open spec fn token_error_text(files: Seq<File>, tok: TokenV, msg: Seq<char>) -> Seq<char> {
    let f = files[file_index(files, tok.file_no)];
    diag_text(f.name@, f.contents@, tok.loc as int, tok.line_no as nat, msg)
}

proof fn lemma_line_start_bounds(cs: Seq<char>, i: int)
    requires
        0 <= i <= cs.len(),
    ensures
        0 <= line_start(cs, i) <= i,
    decreases i,
{
    if i > 0 && cs[i - 1] != '\n' {
        lemma_line_start_bounds(cs, i - 1);
    }
}

proof fn lemma_line_end_bounds(cs: Seq<char>, i: int)
    requires
        0 <= i <= cs.len(),
    ensures
        i <= line_end(cs, i) <= cs.len(),
    decreases cs.len() - i,
{
    if i < cs.len() && cs[i] != '\n' {
        lemma_line_end_bounds(cs, i + 1);
    }
}

proof fn lemma_utf8_len_take(s: Seq<char>, a: int, b: int)
    requires
        0 <= a <= b <= s.len(),
    ensures
        utf8_len_seq(s.take(b)) == utf8_len_seq(s.take(a)) + utf8_len_seq(s.subrange(a, b)),
    decreases b - a,
{
    if b > a {
        lemma_utf8_len_take(s, a, b - 1);
        assert(s.take(b).drop_last() =~= s.take(b - 1));
        assert(s.subrange(a, b).drop_last() =~= s.subrange(a, b - 1));
    } else {
        assert(s.subrange(a, b) =~= Seq::<char>::empty());
    }
}

proof fn lemma_utf8_len_bound(s: Seq<char>)
    ensures
        utf8_len_seq(s) <= 4 * s.len(),
    decreases s.len(),
{
    if s.len() > 0 {
        lemma_utf8_len_bound(s.drop_last());
    }
}

fn line_bounds(cs: &[char], l: usize) -> (r: (usize, usize))
    requires
        l <= cs.len(),
    ensures
        r.0 == line_start(cs@, l as int),
        r.1 == line_end(cs@, l as int),
        r.0 <= l <= r.1 <= cs.len(),
{
    let mut ls = l;
    while ls > 0 && cs[ls - 1] != '\n'
        invariant
            ls <= l <= cs.len(),
            line_start(cs@, ls as int) == line_start(cs@, l as int),
        decreases ls,
    {
        ls -= 1;
    }
    let mut le = l;
    while le < cs.len() && cs[le] != '\n'
        invariant
            l <= le <= cs.len(),
            line_end(cs@, le as int) == line_end(cs@, l as int),
        decreases cs.len() - le,
    {
        le += 1;
    }
    (ls, le)
}

fn diag_header_exec(filename: &str, line_no: usize) -> (r: String)
    requires
        filename@.len() <= usize::MAX / 16,
    ensures
        r@ == diag_header(filename@, line_no as nat),
        r@.len() <= usize::MAX / 16 + 23,
{
    let mut header = String::new();
    header.append(filename);
    push_char(&mut header, ':');
    let digits = u64_to_decimal(line_no as u64);
    push_chars(&mut header, &digits);
    push_char(&mut header, ':');
    push_char(&mut header, ' ');
    proof {
        assert(pow10(20) == 100000000000000000000nat) by {
            reveal_with_fuel(pow10, 21);
        }
        lemma_decimal_len(line_no as nat, 20);
    }
    assert(header@ =~= diag_header(filename@, line_no as nat));
    header
}

fn caret_column(cs: &[char], ls: usize, l: usize, header: &Vec<char>) -> (r: usize)
    requires
        ls <= l <= cs.len(),
        cs.len() <= usize::MAX / 16,
        header@.len() <= usize::MAX / 16 + 23,
    ensures
        r == utf8_len_seq(cs@.subrange(ls as int, l as int)) + utf8_len_seq(header@),
{
    proof {
        lemma_utf8_len_take(cs@, ls as int, l as int);
        lemma_utf8_len_bound(cs@.take(l as int));
        lemma_utf8_len_bound(cs@.subrange(ls as int, l as int));
    }
    let indent = utf8_len_prefix(header, header.len());
    let b_l = utf8_len_prefix(cs, l);
    let b_ls = utf8_len_prefix(cs, ls);
    assert(header@.take(header.len() as int) =~= header@);
    b_l - b_ls + indent
}

/// Formats a diagnostic for position `loc` of `cs` on line `line_no`.
pub fn format_diag(filename: &str, cs: &[char], loc: usize, line_no: usize, msg: &str) -> (r:
    String)
    requires
        cs.len() <= usize::MAX / 16,
        filename@.len() <= usize::MAX / 16,
    ensures
        r@ == diag_text(filename@, cs@, loc as int, line_no as nat, msg@),
{
    let l = if loc < cs.len() {
        loc
    } else {
        cs.len()
    };
    let (ls, le) = line_bounds(cs, l);
    let header = diag_header_exec(filename, line_no);
    let hchars = str_to_chars(header.as_str());
    let pos = caret_column(cs, ls, l, &hchars);
    let mut out = header;
    let mut i = ls;
    while i < le
        invariant
            ls <= i <= le <= cs.len(),
            out@ == diag_header(filename@, line_no as nat) + cs@.subrange(ls as int, i as int),
        decreases le - i,
    {
        push_char(&mut out, cs[i]);
        i += 1;
        assert(out@ =~= diag_header(filename@, line_no as nat) + cs@.subrange(ls as int, i as int));
    }
    let ghost body = out@;
    push_char(&mut out, '\n');
    push_spaces(&mut out, pos);
    push_char(&mut out, '^');
    push_char(&mut out, ' ');
    out.append(msg);
    push_char(&mut out, '\n');
    assert(out@ =~= diag_text(filename@, cs@, loc as int, line_no as nat, msg@));
    out
}

/// Ten to the power `k`.
pub open spec fn pow10(k: nat) -> nat
    decreases k,
{
    if k == 0 {
        1
    } else {
        10 * pow10((k - 1) as nat)
    }
}

pub proof fn lemma_decimal_len(n: nat, k: nat)
    requires
        n < pow10(k),
        k >= 1,
    ensures
        decimal(n).len() <= k,
        1 <= decimal(n).len(),
    decreases n,
{
    if n >= 10 {
        assert(k >= 2) by {
            if k == 1 {
                assert(pow10(1) == 10) by {
                    reveal_with_fuel(pow10, 2);
                }
            }
        }
        assert(n / 10 < pow10((k - 1) as nat));
        lemma_decimal_len(n / 10, (k - 1) as nat);
    }
}

/// The diagnostic `msg` for a token, in the form `file:line: source line`
/// with a caret under the token.
pub fn error_tok(files: &[File], tok: &Token, msg: &str) -> (r: String)
    requires
        has_file(files@, tok.file_no),
        files@[file_index(files@, tok.file_no)].contents@.len() <= usize::MAX / 16,
        files@[file_index(files@, tok.file_no)].name@.len() <= usize::MAX / 16,
    ensures
        r@ == token_error_text(files@, tok@, msg@),
{
    let fi = match find_file(files, tok.file_no) {
        Some(i) => i,
        None => {
            assert(false);
            0
        },
    };
    let f = &files[fi];
    format_diag(f.name.as_str(), &f.contents, tok.loc, tok.line_no, msg)
}

/// The diagnostic `msg` for position `loc` of file `file_no`, with the line
/// number counted from the file's contents.
pub open spec fn at_text(files: Seq<File>, file_no: usize, loc: usize, msg: Seq<char>) -> Seq<char> {
    let f = files[file_index(files, file_no)];
    let l = if loc < f.contents@.len() {
        loc as int
    } else {
        f.contents@.len() as int
    };
    diag_text(f.name@, f.contents@, loc as int, line_of(f.contents@, l), msg)
}

/// The diagnostic `msg` for position `loc` of file `file_no`; the line
/// number is counted from the file's contents.
pub fn error_at(files: &[File], file_no: usize, loc: usize, msg: &str) -> (r: String)
    requires
        has_file(files@, file_no),
        files@[file_index(files@, file_no)].contents@.len() <= usize::MAX / 16,
        files@[file_index(files@, file_no)].name@.len() <= usize::MAX / 16,
    ensures
        r@ == at_text(files@, file_no, loc, msg@),
{
    let fi = match find_file(files, file_no) {
        Some(i) => i,
        None => {
            assert(false);
            0
        },
    };
    let f = &files[fi];
    let cs = &f.contents;
    let l = if loc < cs.len() {
        loc
    } else {
        cs.len()
    };
    let line_no = count_line(cs, l);
    format_diag(f.name.as_str(), cs, loc, line_no, msg)
}

/// The line number of position `l`.
pub fn count_line(cs: &[char], l: usize) -> (r: usize)
    requires
        l <= cs.len(),
        cs.len() < usize::MAX,
    ensures
        r == line_of(cs@, l as int),
{
    let mut n: usize = 1;
    let mut p: usize = 0;
    while p < l
        invariant
            p <= l <= cs.len(),
            cs.len() < usize::MAX,
            n == newlines(cs@.take(p as int)) + 1,
            n <= p + 1,
        decreases l - p,
    {
        assert(cs@.take(p + 1).drop_last() =~= cs@.take(p as int));
        if cs[p] == '\n' {
            n += 1;
        }
        p += 1;
    }
    n
}


// ---------------------------------------------------------------------------
// Integer constants

/// Whether `c` is a digit of the given base.
pub open spec fn is_base_digit(c: char, base: int) -> bool {
    if base == 16 {
        spec_is_hex(c)
    } else if base == 10 {
        spec_is_digit(c)
    } else if base == 8 {
        '0' <= c && c <= '7'
    } else {
        c == '0' || c == '1'
    }
}

/// The base of an integer constant and where its digits start.
pub open spec fn literal_base(cs: Seq<char>) -> (int, int) {
    if 2 < cs.len() && cs[0] == '0' && (cs[1] == 'x' || cs[1] == 'X') && spec_is_hex(cs[2]) {
        (16, 2)
    } else if 2 < cs.len() && cs[0] == '0' && (cs[1] == 'b' || cs[1] == 'B') && (cs[2] == '0'
        || cs[2] == '1') {
        (2, 2)
    } else if cs[0] == '0' {
        (8, 0)
    } else {
        (10, 0)
    }
}

/// The end of the run of digits of `base` starting at `p`.
pub open spec fn digit_run_end(cs: Seq<char>, p: int, base: int) -> int
    decreases cs.len() - p,
{
    if 0 <= p < cs.len() && is_base_digit(cs[p], base) {
        digit_run_end(cs, p + 1, base)
    } else {
        p
    }
}

/// The value of the digits in `[start, end)` in `base`.
pub open spec fn digits_value(cs: Seq<char>, start: int, end: int, base: int) -> int
    decreases end - start,
{
    if end <= start {
        0
    } else {
        digits_value(cs, start, end - 1, base) * base + spec_hex_value(cs[end - 1]) as int
    }
}

/// The end of the run of ASCII letters starting at `p`.
pub open spec fn alpha_run_end(cs: Seq<char>, p: int) -> int
    decreases cs.len() - p,
{
    if 0 <= p < cs.len() && spec_is_alpha(cs[p]) {
        alpha_run_end(cs, p + 1)
    } else {
        p
    }
}

/// A letter in upper case.
pub open spec fn upper(c: char) -> char {
    if 'a' <= c && c <= 'z' {
        ((c as u32) - 32) as char
    } else {
        c
    }
}

/// The letters in `[a, b)` in upper case.
pub open spec fn upper_run(cs: Seq<char>, a: int, b: int) -> Seq<char> {
    Seq::new((b - a) as nat, |i: int| upper(cs[a + i]))
}

/// The integer suffix `(is_long, is_unsigned, recognized)` of a run of letters.
pub open spec fn suffix_class(s: Seq<char>) -> (bool, bool, bool) {
    if s == seq!['L', 'L', 'U'] || s == seq!['U', 'L', 'L'] || s == seq!['U', 'L'] || s == seq![
        'L',
        'U',
    ] {
        (true, true, true)
    } else if s == seq!['L', 'L'] || s == seq!['L'] {
        (true, false, true)
    } else if s == seq!['U'] {
        (false, true, true)
    } else {
        (false, false, false)
    }
}

/// The type of an integer constant of value `val` written in `base` with the
/// given suffix.
pub open spec fn literal_type(base: int, val: u64, l: bool, u: bool) -> Type {
    if base == 10 {
        if l && u {
            plain_type(TypeKind::Long, 8, 8, true)
        } else if l {
            plain_type(TypeKind::Long, 8, 8, false)
        } else if u {
            if val >> 32u64 != 0 {
                plain_type(TypeKind::Long, 8, 8, true)
            } else {
                plain_type(TypeKind::Int, 4, 4, true)
            }
        } else if val >> 31u64 != 0 {
            plain_type(TypeKind::Long, 8, 8, false)
        } else {
            plain_type(TypeKind::Int, 4, 4, false)
        }
    } else if l && u {
        plain_type(TypeKind::Long, 8, 8, true)
    } else if l {
        if val >> 63u64 != 0 {
            plain_type(TypeKind::Long, 8, 8, true)
        } else {
            plain_type(TypeKind::Long, 8, 8, false)
        }
    } else if u {
        if val >> 32u64 != 0 {
            plain_type(TypeKind::Long, 8, 8, true)
        } else {
            plain_type(TypeKind::Int, 4, 4, true)
        }
    } else if val >> 63u64 != 0 {
        plain_type(TypeKind::Long, 8, 8, true)
    } else if val >> 32u64 != 0 {
        plain_type(TypeKind::Long, 8, 8, false)
    } else if val >> 31u64 != 0 {
        plain_type(TypeKind::Int, 4, 4, true)
    } else {
        plain_type(TypeKind::Int, 4, 4, false)
    }
}

/// The type of an integer constant is the first that can hold its value:
/// without a suffix, a decimal constant is `int` below 2^31 and `long`
/// otherwise, and a hexadecimal, octal or binary one is `int`, `unsigned
/// int`, `long` or `unsigned long`, the first below 2^31, 2^32, 2^63 or
/// 2^64; with `u`, `unsigned int` below 2^32 and `unsigned long` otherwise;
/// with `l`, a `long` (unsigned with `u`, or for a non-decimal value of
/// 2^63 or more).
pub proof fn law_literal_type_holds_the_value(base: int, val: u64, l: bool, u: bool)
    ensures
        ({
            let t = literal_type(base, val, l, u);
            &&& (!l && !u && base == 10) ==> if val < 0x8000_0000 {
                t.kind == TypeKind::Int && t.size == 4 && !t.is_unsigned
            } else {
                t.kind == TypeKind::Long && t.size == 8 && !t.is_unsigned
            }
            &&& (!l && !u && base != 10) ==> if val < 0x8000_0000 {
                t.kind == TypeKind::Int && !t.is_unsigned
            } else if val < 0x1_0000_0000 {
                t.kind == TypeKind::Int && t.is_unsigned
            } else if val < 0x8000_0000_0000_0000 {
                t.kind == TypeKind::Long && !t.is_unsigned
            } else {
                t.kind == TypeKind::Long && t.is_unsigned
            }
            &&& (u && !l) ==> t.is_unsigned && if val < 0x1_0000_0000 {
                t.kind == TypeKind::Int && t.size == 4
            } else {
                t.kind == TypeKind::Long && t.size == 8
            }
            &&& l ==> t.kind == TypeKind::Long && t.size == 8
            &&& (l && u) ==> t.is_unsigned
            &&& (l && !u && base == 10) ==> !t.is_unsigned
            &&& (l && !u && base != 10) ==> t.is_unsigned == (val >= 0x8000_0000_0000_0000)
        }),
{
    assert(val >> 31u64 != 0 <==> val >= 0x8000_0000) by (bit_vector);
    assert(val >> 32u64 != 0 <==> val >= 0x1_0000_0000) by (bit_vector);
    assert(val >> 63u64 != 0 <==> val >= 0x8000_0000_0000_0000) by (bit_vector);
}

/// The value and type of the integer constant spelled `cs`, if it is one:
/// a base prefix, at least one digit, a value that fits in 64 bits, an
/// optional suffix, and nothing else.
pub open spec fn int_literal(cs: Seq<char>) -> Option<(i64, Type)> {
    let (base, p) = literal_base(cs);
    let end = digit_run_end(cs, p, base);
    let v = digits_value(cs, p, end, base);
    let send = alpha_run_end(cs, end);
    let (l, u, known) = suffix_class(upper_run(cs, end, send));
    let q = if known {
        send
    } else {
        end
    };
    if end == p || v > u64::MAX || q != cs.len() {
        None
    } else {
        Some((v as u64 as i64, literal_type(base, v as u64, l, u)))
    }
}

proof fn lemma_digit_run(cs: Seq<char>, p: int, base: int)
    requires
        0 <= p <= cs.len(),
    ensures
        p <= digit_run_end(cs, p, base) <= cs.len(),
        forall|i: int|
            p <= i < digit_run_end(cs, p, base) ==> is_base_digit(#[trigger] cs[i], base),
    decreases cs.len() - p,
{
    if p < cs.len() && is_base_digit(cs[p], base) {
        lemma_digit_run(cs, p + 1, base);
    }
}

proof fn lemma_alpha_run(cs: Seq<char>, p: int)
    requires
        0 <= p <= cs.len(),
    ensures
        p <= alpha_run_end(cs, p) <= cs.len(),
    decreases cs.len() - p,
{
    if p < cs.len() && spec_is_alpha(cs[p]) {
        lemma_alpha_run(cs, p + 1);
    }
}

fn is_base_digit_exec(c: char, base: u64) -> (r: bool)
    ensures
        r == is_base_digit(c, base as int),
{
    if base == 16 {
        is_hex(c)
    } else if base == 10 {
        is_digit(c)
    } else if base == 8 {
        '0' <= c && c <= '7'
    } else {
        c == '0' || c == '1'
    }
}

fn upper_exec(c: char) -> (r: char)
    ensures
        r == upper(c),
{
    if 'a' <= c && c <= 'z' {
        ((c as u8) - 32) as char
    } else {
        c
    }
}

fn suffix_class_exec(cs: &[char], a: usize, b: usize) -> (r: (bool, bool, bool))
    requires
        a <= b <= cs.len(),
    ensures
        r == suffix_class(upper_run(cs@, a as int, b as int)),
{
    let mut up: Vec<char> = Vec::new();
    let mut i = a;
    while i < b
        invariant
            a <= i <= b <= cs.len(),
            up@ == upper_run(cs@, a as int, i as int),
        decreases b - i,
    {
        up.push(upper_exec(cs[i]));
        i += 1;
        assert(up@ =~= upper_run(cs@, a as int, i as int));
    }
    let llu = chars_eq(&up, &['L', 'L', 'U']);
    let ull = chars_eq(&up, &['U', 'L', 'L']);
    let ul = chars_eq(&up, &['U', 'L']);
    let lu = chars_eq(&up, &['L', 'U']);
    let ll = chars_eq(&up, &['L', 'L']);
    let l = chars_eq(&up, &['L']);
    let u = chars_eq(&up, &['U']);
    assert(['L', 'L', 'U']@ =~= seq!['L', 'L', 'U']);
    assert(['U', 'L', 'L']@ =~= seq!['U', 'L', 'L']);
    assert(['U', 'L']@ =~= seq!['U', 'L']);
    assert(['L', 'U']@ =~= seq!['L', 'U']);
    assert(['L', 'L']@ =~= seq!['L', 'L']);
    assert(['L']@ =~= seq!['L']);
    assert(['U']@ =~= seq!['U']);
    if llu || ull || ul || lu {
        (true, true, true)
    } else if ll || l {
        (true, false, true)
    } else if u {
        (false, true, true)
    } else {
        (false, false, false)
    }
}

fn literal_type_exec(base: u64, val: u64, l: bool, u: bool) -> (r: Type)
    ensures
        r == literal_type(base as int, val, l, u),
{
    if base == 10 {
        if l && u {
            Type::new_ulong()
        } else if l {
            Type::new_long()
        } else if u {
            if val >> 32 != 0 {
                Type::new_ulong()
            } else {
                Type::new_uint()
            }
        } else if val >> 31 != 0 {
            Type::new_long()
        } else {
            Type::new_int()
        }
    } else if l && u {
        Type::new_ulong()
    } else if l {
        if val >> 63 != 0 {
            Type::new_ulong()
        } else {
            Type::new_long()
        }
    } else if u {
        if val >> 32 != 0 {
            Type::new_ulong()
        } else {
            Type::new_uint()
        }
    } else if val >> 63 != 0 {
        Type::new_ulong()
    } else if val >> 32 != 0 {
        Type::new_long()
    } else if val >> 31 != 0 {
        Type::new_uint()
    } else {
        Type::new_int()
    }
}

/// Reads `cs` as an integer constant: its value and type, if it is one.
pub fn try_parse_int_literal(cs: &[char]) -> (r: Option<(i64, Type)>)
    requires
        cs.len() >= 1,
    ensures
        r == int_literal(cs@),
{
    let n = cs.len();
    let (base, p): (u64, usize) = if 2 < n && cs[0] == '0' && (cs[1] == 'x' || cs[1] == 'X')
        && is_hex(cs[2]) {
        (16, 2)
    } else if 2 < n && cs[0] == '0' && (cs[1] == 'b' || cs[1] == 'B') && (cs[2] == '0' || cs[2]
        == '1') {
        (2, 2)
    } else if cs[0] == '0' {
        (8, 0)
    } else {
        (10, 0)
    };
    let mut end = p;
    while end < n && is_base_digit_exec(cs[end], base)
        invariant
            p <= end <= n == cs.len(),
            digit_run_end(cs@, end as int, base as int) == digit_run_end(cs@, p as int, base as int),
        decreases n - end,
    {
        end += 1;
    }
    if end == p {
        return None;
    }
    proof {
        lemma_digit_run(cs@, p as int, base as int);
    }
    assert(digit_run_end(cs@, p as int, base as int) == end);
    let mut v: u64 = 0;
    let mut i = p;
    while i < end
        invariant
            p <= i <= end <= n == cs.len(),
            base == 16 || base == 10 || base == 8 || base == 2,
            forall|k: int| p <= k < end ==> is_base_digit(#[trigger] cs@[k], base as int),
            digit_run_end(cs@, p as int, base as int) == end,
            literal_base(cs@) == (base as int, p as int),
            v == digits_value(cs@, p as int, i as int, base as int),
        decreases end - i,
    {
        assert(is_base_digit(cs@[i as int], base as int));
        let d = hex_value(cs[i]) as u64;
        assert(digits_value(cs@, p as int, i + 1, base as int) == v * base + d);
        let m = v.checked_mul(base);
        match m {
            None => {
                proof {
                    lemma_digits_value_grows(cs@, p as int, i as int + 1, end as int, base as int);
                }
                return None;
            },
            Some(m) => match m.checked_add(d) {
                None => {
                    proof {
                        lemma_digits_value_grows(cs@, p as int, i as int + 1, end as int, base as int);
                    }
                    return None;
                },
                Some(x) => {
                    v = x;
                },
            },
        }
        i += 1;
    }
    let mut send = end;
    while send < n && is_alpha(cs[send])
        invariant
            end <= send <= n == cs.len(),
            alpha_run_end(cs@, send as int) == alpha_run_end(cs@, end as int),
        decreases n - send,
    {
        send += 1;
    }
    let (l, u, known) = suffix_class_exec(cs, end, send);
    let q = if known {
        send
    } else {
        end
    };
    if q != n {
        return None;
    }
    let ty = literal_type_exec(base, v, l, u);
    Some((#[verifier::truncate] (v as i64), ty))
}

proof fn lemma_digits_value_grows(cs: Seq<char>, p: int, i: int, end: int, base: int)
    requires
        p <= i <= end <= cs.len(),
        base >= 2,
        forall|k: int| p <= k < end ==> is_base_digit(#[trigger] cs[k], base),
        digits_value(cs, p, i, base) > u64::MAX,
    ensures
        digits_value(cs, p, end, base) > u64::MAX,
    decreases end - i,
{
    if end > i {
        lemma_digits_value_grows(cs, p, i, end - 1, base);
        assert(digits_value(cs, p, end - 1, base) * base >= digits_value(cs, p, end - 1, base))
            by (nonlinear_arith)
            requires
                digits_value(cs, p, end - 1, base) >= 0,
                base >= 2,
        ;
    }
}


/// Turns a preprocessing number into an integer constant when it is one.
/// `Ok(true)`: the token is now a number with its value and type.
/// `Ok(false)`: it is no integer constant and is left as it is; reading it
/// as a floating-point constant is left to the caller. `Err`: the token's
/// file is unknown.
pub fn convert_pp_number(files: &[File], tok: &mut Token) -> (r: Result<bool, String>)
    requires
        has_file(files@, old(tok).file_no) ==> text_at(
            files@[file_index(files@, old(tok).file_no)].contents@,
            old(tok).loc as int,
            old(tok).len as int,
        ).len() >= 1,
    ensures
        !has_file(files@, old(tok).file_no) ==> r.is_err() && r.unwrap_err()@ == "file not found"@
            && final(tok)@ == old(tok)@,
        has_file(files@, old(tok).file_no) ==> match int_literal(token_text(files@, old(tok)@)) {
            Some((v, ty)) => r == Ok::<bool, String>(true) && final(tok)@ == (TokenV {
                kind: TokenKind::Num,
                val: v,
                ty: Some(ty),
                ..old(tok)@
            }),
            None => r == Ok::<bool, String>(false) && final(tok)@ == old(tok)@,
        },
{
    let fi = match find_file(files, tok.file_no) {
        Some(i) => i,
        None => return Err(String::from_str("file not found")),
    };
    let s = text_slice(&files[fi].contents, tok.loc, tok.len);
    match try_parse_int_literal(&s) {
        Some((val, ty)) => {
            tok.kind = TokenKind::Num;
            tok.val = val;
            tok.ty = Some(ty);
            Ok(true)
        },
        None => Ok(false),
    }
}

/// The files read so far and the number of the last one.
pub struct Input {
    pub files: Vec<File>,
    pub last_file_no: usize,
}

/// No files read yet.
pub fn new_input() -> (r: Input)
    ensures
        r.files@.len() == 0,
        r.last_file_no == 0,
{
    Input { files: Vec::new(), last_file_no: 0 }
}

/// A fresh file number: one more than the last one handed out.
pub fn get_file_no(input: &mut Input) -> (r: usize)
    requires
        old(input).last_file_no < usize::MAX,
    ensures
        r == old(input).last_file_no + 1,
        final(input).last_file_no == r,
        final(input).files == old(input).files,
{
    input.last_file_no = input.last_file_no + 1;
    input.last_file_no
}

/// File numbers: successive calls of `get_file_no` from a last number
/// `start` hand out `start + 1`, `start + 2`, and so on, so each is at
/// least one and none repeats.
pub proof fn law_file_numbers_never_repeat(start: usize, nos: Seq<usize>)
    requires
        nos.len() > 0 ==> nos[0] == start + 1,
        forall|k: int| 0 <= k < nos.len() - 1 ==> #[trigger] nos[k + 1] == nos[k] + 1,
    ensures
        forall|k: int| 0 <= k < nos.len() ==> #[trigger] nos[k] == start + 1 + k,
        forall|k: int| 0 <= k < nos.len() ==> #[trigger] nos[k] >= 1,
        forall|i: int, j: int| 0 <= i < j < nos.len() ==> #[trigger] nos[i] != #[trigger] nos[j],
    decreases nos.len(),
{
    if nos.len() > 0 {
        let front = nos.drop_last();
        assert forall|k: int| 0 <= k < front.len() - 1 implies #[trigger] front[k + 1] == front[k]
            + 1 by {
            assert(nos[k + 1] == nos[k] + 1);
        }
        law_file_numbers_never_repeat(start, front);
        let n = nos.len() - 1;
        if n > 0 {
            assert(front[n - 1] == start + n);
            assert(nos[(n - 1) + 1] == nos[n - 1] + 1);
        }
        assert forall|k: int| 0 <= k < nos.len() implies #[trigger] nos[k] == start + 1 + k by {
            if k < n {
                assert(front[k] == nos[k]);
            }
        }
    }
}

/// Records a file as read.
pub fn add_input_file(input: &mut Input, file: File)
    ensures
        final(input).files@ == old(input).files@.push(file),
        final(input).last_file_no == old(input).last_file_no,
{
    input.files.push(file);
}

/// The files read so far.
pub fn get_input_files(input: &Input) -> (r: &Vec<File>)
    ensures
        r == &input.files,
{
    &input.files
}

/// Registers a file under `path` with the given text as it stands, and
/// tokenizes it.
pub fn tokenize_text(input: &mut Input, path: &str, contents: Vec<char>) -> (r: Vec<Token>)
    requires
        old(input).last_file_no < usize::MAX,
        contents@.len() <= usize::MAX / 8,
    ensures
        final(input).last_file_no == old(input).last_file_no + 1,
        final(input).files@.len() == old(input).files@.len() + 1,
        final(input).files@.take(old(input).files@.len() as int) == old(input).files@,
        final(input).files@.last().name@ == path@,
        final(input).files@.last().file_no == final(input).last_file_no,
        final(input).files@.last().contents@ == contents@,
        views(r@) == spec_tokenize(contents@, final(input).last_file_no),
{
    let file_no = get_file_no(input);
    let file = new_file(String::from_str(path), file_no, contents);
    add_input_file(input, file);
    let last = input.files.len() - 1;
    assert(input.files@.take(old(input).files@.len() as int) =~= old(input).files@);
    tokenize(&input.files[last])
}

/// Registers a file under `path`, with its raw text made ready for the
/// tokenizer (see `spec_prepared`), and tokenizes it. `None`, with nothing
/// registered, when a universal character name in the text names no
/// character, or when the prepared text is too long to address.
pub fn tokenize_file(input: &mut Input, path: &str, raw: Vec<char>) -> (r: Option<Vec<Token>>)
    requires
        old(input).last_file_no < usize::MAX,
    ensures
        match spec_prepared(raw@) {
            Some(c) if c.len() <= usize::MAX / 8 => {
                &&& r is Some
                &&& final(input).last_file_no == old(input).last_file_no + 1
                &&& final(input).files@.len() == old(input).files@.len() + 1
                &&& final(input).files@.take(old(input).files@.len() as int) == old(input).files@
                &&& final(input).files@.last().name@ == path@
                &&& final(input).files@.last().file_no == final(input).last_file_no
                &&& final(input).files@.last().contents@ == c
                &&& views(r->0@) == spec_tokenize(c, final(input).last_file_no)
            },
            _ => r is None && *final(input) == *old(input),
        },
{
    let contents = match prepare_contents(raw) {
        Some(c) => c,
        None => return None,
    };
    if contents.len() > usize::MAX / 8 {
        return None;
    }
    Some(tokenize_text(input, path, contents))
}

} // verus!
