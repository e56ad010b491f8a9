//! The lexer: turns a source buffer into a single-token-lookahead stream of
//! typed tokens. It is pull-based — the parser asks for one token at a time —
//! and it never fails: invalid input produces an `ERROR`-kind token or an
//! error-flagged result and scanning continues, so one pass can collect many
//! independent diagnostics.

use vstd::prelude::*;

use crate::diag::{DiagKind, Diagnostic};
use crate::limits::MAX_INTERPOLATION_NESTING;
use crate::token::{
    keyword_token_type, keyword_type, keywords, token_clone, token_like, value_is_num,
    value_is_str, Token, TokenType, Value,
};

verus! {

/// The character at offset `i` of the source, with a NUL sentinel standing
/// for every offset outside the buffer. The lexer never reads past the end of
/// the source: looking beyond it yields this sentinel.
pub open spec fn char_at(s: Seq<char>, i: int) -> char {
    if 0 <= i < s.len() {
        s[i]
    } else {
        '\0'
    }
}

/// How many newline characters lie in `s[a..b]`.
pub open spec fn newlines_in(s: Seq<char>, a: int, b: int) -> nat
    decreases b - a,
{
    if a >= b {
        0
    } else {
        newlines_in(s, a, b - 1) + (if char_at(s, b - 1) == '\n' {
            1nat
        } else {
            0nat
        })
    }
}

/// Two unfolding steps of `newlines_in` at once: counting up to `b + 2`
/// adds the contributions of the characters at `b` and `b + 1`.
pub proof fn lemma_newlines_in_step(s: Seq<char>, a: int, b: int)
    requires
        a <= b,
    ensures
        newlines_in(s, a, b + 2) == newlines_in(s, a, b) + (if char_at(s, b) == '\n' {
            1nat
        } else {
            0nat
        }) + (if char_at(s, b + 1) == '\n' {
            1nat
        } else {
            0nat
        }),
{
    assert(newlines_in(s, a, b + 1) == newlines_in(s, a, b) + (if char_at(s, b) == '\n' {
        1nat
    } else {
        0nat
    }));
}

/// Where a line comment beginning at `i` ends: the offset of the first
/// newline (or NUL, or the end of the source) at or after `i`. The newline
/// itself is not part of the comment.
pub open spec fn line_comment_end(s: Seq<char>, i: int) -> int
    decreases s.len() - i,
{
    if i < s.len() && char_at(s, i) != '\n' && char_at(s, i) != '\0' {
        line_comment_end(s, i + 1)
    } else {
        i
    }
}

/// Where a block comment body starting at `i` with `nesting` unclosed `/*`
/// markers ends: `Some` of the offset just past the close that matches the
/// outermost open, or `None` when the source ends (or a NUL is reached)
/// first — more opens than closes.
pub open spec fn block_comment_end(s: Seq<char>, i: int, nesting: nat) -> Option<int>
    decreases s.len() - i,
{
    if i >= s.len() || char_at(s, i) == '\0' {
        None
    } else if char_at(s, i) == '/' && char_at(s, i + 1) == '*' {
        block_comment_end(s, i + 2, nesting + 1)
    } else if char_at(s, i) == '*' && char_at(s, i + 1) == '/' {
        if nesting == 1 {
            Some(i + 2)
        } else {
            block_comment_end(s, i + 2, (nesting - 1) as nat)
        }
    } else {
        block_comment_end(s, i + 1, nesting)
    }
}

/// The offset of the first non-digit at or after `i`.
pub open spec fn digits_end(s: Seq<char>, i: int) -> int
    decreases s.len() - i,
{
    if i < s.len() && is_digit_char(char_at(s, i)) {
        digits_end(s, i + 1)
    } else {
        i
    }
}

/// The offset of the first non-hexadecimal-digit at or after `i`.
pub open spec fn hex_digits_end(s: Seq<char>, i: int) -> int
    decreases s.len() - i,
{
    if i < s.len() && is_hex_digit_char(char_at(s, i)) {
        hex_digits_end(s, i + 1)
    } else {
        i
    }
}

/// The offset of the first character at or after `i` that can continue no
/// identifier (neither a name character nor a digit).
pub open spec fn name_end(s: Seq<char>, i: int) -> int
    decreases s.len() - i,
{
    if i < s.len() && (is_name_char(char_at(s, i)) || is_digit_char(char_at(s, i))) {
        name_end(s, i + 1)
    } else {
        i
    }
}

/// Where a number literal's integer-and-fraction part ends when its digit run
/// starts at `i`: a fractional part is only taken if the `.` is followed by a
/// digit, so a method call on a number literal is not misread as a malformed
/// float.
pub open spec fn number_frac_end(s: Seq<char>, i: int) -> int {
    let d = digits_end(s, i);
    if char_at(s, d) == '.' && is_digit_char(char_at(s, d + 1)) {
        digits_end(s, d + 1)
    } else {
        d
    }
}

/// If the number literal whose digits start at `i` carries a scientific
/// exponent, the offset where the exponent's digits must begin (just past the
/// `e`/`E` and one optional sign); otherwise `None`.
pub open spec fn number_exp_start(s: Seq<char>, i: int) -> Option<int> {
    let f = number_frac_end(s, i);
    if char_at(s, f) == 'e' || char_at(s, f) == 'E' {
        if char_at(s, f + 1) == '+' || char_at(s, f + 1) == '-' {
            Some(f + 2)
        } else {
            Some(f + 1)
        }
    } else {
        None
    }
}

/// Where the number literal whose digits start at `i` ends.
pub open spec fn number_end(s: Seq<char>, i: int) -> int {
    match number_exp_start(s, i) {
        Option::None => number_frac_end(s, i),
        Option::Some(g) => digits_end(s, g),
    }
}

/// Whether the number literal whose digits start at `i` has an exponent
/// marker with no digit after it — a lexical error.
pub open spec fn number_exp_missing_digit(s: Seq<char>, i: int) -> bool {
    match number_exp_start(s, i) {
        Option::None => false,
        Option::Some(g) => !is_digit_char(char_at(s, g)),
    }
}

/// A decimal literal followed by anything that is neither a digit, a `.`
/// with a digit right after it, nor an exponent marker stops exactly at the
/// end of its digit run, with nothing consumed past the boundary and no
/// error: a method call on a number literal — a `.` followed by a name — is
/// never misread as a malformed float.
pub proof fn lemma_number_stops_at_boundary(s: Seq<char>, i: int)
    requires
        char_at(s, digits_end(s, i)) != '.' || !is_digit_char(char_at(s, digits_end(s, i) + 1)),
        char_at(s, digits_end(s, i)) != 'e',
        char_at(s, digits_end(s, i)) != 'E',
    ensures
        number_end(s, i) == digits_end(s, i),
        !number_exp_missing_digit(s, i),
{
}

/// Sixteen to the `n`th power: the number of values `n` hexadecimal digits
/// can take.
pub open spec fn pow16(n: nat) -> nat
    decreases n,
{
    if n == 0 {
        1
    } else {
        16 * pow16((n - 1) as nat)
    }
}

/// The largest eight-digit escape value: eight hex digits carry 32 bits.
pub proof fn lemma_pow16_8()
    ensures
        pow16(8) == 0x1_0000_0000,
{
    assert(pow16(0) == 1);
    assert(pow16(1) == 16);
    assert(pow16(2) == 256);
    assert(pow16(3) == 0x1000);
    assert(pow16(4) == 0x1_0000);
    assert(pow16(5) == 0x10_0000);
    assert(pow16(6) == 0x100_0000);
    assert(pow16(7) == 0x1000_0000);
}

pub proof fn lemma_pow16_le(a: nat, b: nat)
    requires
        a <= b,
    ensures
        pow16(a) <= pow16(b),
    decreases b,
{
    if a < b {
        lemma_pow16_le(a, (b - 1) as nat);
    }
}

/// Outcome of scanning up to `digits` hexadecimal digits of an escape
/// sequence: where the scan stops, the accumulated value, and whether it was
/// cut short by the string's end (`incomplete`) or by a character that is no
/// hex digit (`invalid`).
pub ghost struct HexEscapeScan {
    pub end: int,
    pub value: nat,
    pub incomplete: bool,
    pub invalid: bool,
}

/// Scans `digits` hexadecimal digits starting at `i`, accumulating onto
/// `acc`. A closing quote or the end of the source cuts the escape short; so
/// does any other non-digit, which stays unconsumed.
pub open spec fn hex_escape_scan(s: Seq<char>, i: int, digits: nat, acc: nat) -> HexEscapeScan
    decreases digits,
{
    if digits == 0 {
        HexEscapeScan { end: i, value: acc, incomplete: false, invalid: false }
    } else if char_at(s, i) == '"' || char_at(s, i) == '\0' {
        HexEscapeScan { end: i, value: acc, incomplete: true, invalid: false }
    } else if !is_hex_digit_char(char_at(s, i)) {
        HexEscapeScan { end: i, value: acc, incomplete: false, invalid: true }
    } else {
        hex_escape_scan(
            s,
            i + 1,
            (digits - 1) as nat,
            acc * 16 + hex_digit_value(char_at(s, i)) as nat,
        )
    }
}

/// The scan stays inside the source and never walks backwards.
pub proof fn lemma_hex_escape_scan_end(s: Seq<char>, i: int, digits: nat, acc: nat)
    requires
        0 <= i <= s.len(),
    ensures
        i <= hex_escape_scan(s, i, digits, acc).end <= s.len(),
    decreases digits,
{
    if digits > 0 && char_at(s, i) != '"' && char_at(s, i) != '\0' && is_hex_digit_char(
        char_at(s, i),
    ) {
        lemma_hex_escape_scan_end(
            s,
            i + 1,
            (digits - 1) as nat,
            acc * 16 + hex_digit_value(char_at(s, i)) as nat,
        );
    }
}

/// Whether `v` is a Unicode scalar value: at most 0x10FFFF and not a
/// surrogate.
pub open spec fn is_scalar_value(v: nat) -> bool {
    v <= 0x10FFFF && !(0xD800 <= v && v <= 0xDFFF)
}

/// The characters a Unicode escape of value `v` contributes: the scalar
/// value's character, or nothing when `v` is no Unicode scalar value (a
/// surrogate, or past the last code point) — that is a lexical error.
pub open spec fn scalar_chars(v: nat) -> Seq<char> {
    if is_scalar_value(v) {
        seq![(v as u32) as char]
    } else {
        Seq::empty()
    }
}

/// Whether `c` is one of the single-character string escapes.
pub open spec fn is_simple_escape(c: char) -> bool {
    c == '"' || c == '\\' || c == '%' || c == '0' || c == 'a' || c == 'b' || c == 'e' || c == 'f'
        || c == 'n' || c == 'r' || c == 't' || c == 'v'
}

/// The character a single-character escape stands for.
pub open spec fn escape_char(c: char) -> char {
    if c == '"' {
        '"'
    } else if c == '\\' {
        '\\'
    } else if c == '%' {
        '%'
    } else if c == '0' {
        '\0'
    } else if c == 'a' {
        '\u{7}'
    } else if c == 'b' {
        '\u{8}'
    } else if c == 'e' {
        '\u{1b}'
    } else if c == 'f' {
        '\u{c}'
    } else if c == 'n' {
        '\n'
    } else if c == 'r' {
        '\r'
    } else if c == 't' {
        '\t'
    } else {
        '\u{b}'
    }
}

/// Outcome of scanning a string literal's body: the offset just past what
/// was consumed, the literal's characters with escapes decoded, whether the
/// segment ends at a `%(` interpolation rather than the closing quote, and
/// whether any lexical error occurred on the way.
pub ghost struct StringScan {
    pub end: int,
    pub content: Seq<char>,
    pub interp: bool,
    pub err: bool,
}

/// Scans a string literal's body from `i` (just past the opening quote, or
/// just past the `)` that resumed an interpolated string). `can_interp` says
/// whether one more interpolation level may begin. The scan ends at the
/// closing quote, at a `%(`, or — an error — at the source's end; escape
/// errors are recorded and scanning continues.
pub open spec fn string_scan(s: Seq<char>, i: int, can_interp: bool) -> StringScan
    decreases s.len() - i,
    via string_scan_dec
{
    let c = char_at(s, i);
    if c == '\0' {
        StringScan { end: i, content: Seq::empty(), interp: false, err: true }
    } else if c == '"' {
        StringScan { end: i + 1, content: Seq::empty(), interp: false, err: false }
    } else if c == '%' && can_interp {
        let after = if i + 1 < s.len() {
            i + 2
        } else {
            i + 1
        };
        StringScan { end: after, content: Seq::empty(), interp: true, err: char_at(s, i + 1) != '(' }
    } else if c == '%' {
        let rest = string_scan(s, i + 1, can_interp);
        StringScan { end: rest.end, content: seq!['%'] + rest.content, interp: rest.interp, err: true }
    } else if c == '\\' {
        let e = char_at(s, i + 1);
        if is_simple_escape(e) {
            let rest = string_scan(s, i + 2, can_interp);
            StringScan {
                end: rest.end,
                content: seq![escape_char(e)] + rest.content,
                interp: rest.interp,
                err: rest.err,
            }
        } else if e == 'x' {
            let h = hex_escape_scan(s, i + 2, 2, 0);
            let rest = string_scan(s, h.end, can_interp);
            StringScan {
                end: rest.end,
                content: seq![((h.value as u8) as char)] + rest.content,
                interp: rest.interp,
                err: h.incomplete || h.invalid || rest.err,
            }
        } else if e == 'u' {
            let h = hex_escape_scan(s, i + 2, 4, 0);
            let rest = string_scan(s, h.end, can_interp);
            StringScan {
                end: rest.end,
                content: scalar_chars(h.value) + rest.content,
                interp: rest.interp,
                err: h.incomplete || h.invalid || !is_scalar_value(h.value) || rest.err,
            }
        } else if e == 'U' {
            let h = hex_escape_scan(s, i + 2, 8, 0);
            let rest = string_scan(s, h.end, can_interp);
            StringScan {
                end: rest.end,
                content: scalar_chars(h.value) + rest.content,
                interp: rest.interp,
                err: h.incomplete || h.invalid || !is_scalar_value(h.value) || rest.err,
            }
        } else {
            let after = if i + 1 < s.len() {
                i + 2
            } else {
                i + 1
            };
            let rest = string_scan(s, after, can_interp);
            StringScan { end: rest.end, content: rest.content, interp: rest.interp, err: true }
        }
    } else {
        let rest = string_scan(s, i + 1, can_interp);
        StringScan { end: rest.end, content: seq![c] + rest.content, interp: rest.interp, err: rest.err }
    }
}

#[via_fn]
proof fn string_scan_dec(s: Seq<char>, i: int, can_interp: bool) {
    let c = char_at(s, i);
    if c == '\\' {
        let e = char_at(s, i + 1);
        if e == 'x' {
            lemma_hex_escape_scan_end(s, i + 2, 2, 0);
        } else if e == 'u' {
            lemma_hex_escape_scan_end(s, i + 2, 4, 0);
        } else if e == 'U' {
            lemma_hex_escape_scan_end(s, i + 2, 8, 0);
        }
    }
}

/// Counting newlines across a run of consumed hexadecimal escape digits
/// changes nothing: no hex digit is a newline.
pub proof fn lemma_newlines_hex_range(s: Seq<char>, a: int, i: int, digits: nat, acc: nat)
    requires
        a <= i,
        0 <= i <= s.len(),
    ensures
        newlines_in(s, a, hex_escape_scan(s, i, digits, acc).end) == newlines_in(s, a, i),
    decreases digits,
{
    if digits > 0 && char_at(s, i) != '"' && char_at(s, i) != '\0' && is_hex_digit_char(
        char_at(s, i),
    ) {
        assert(newlines_in(s, a, i + 1) == newlines_in(s, a, i));
        lemma_newlines_hex_range(
            s,
            a,
            i + 1,
            (digits - 1) as nat,
            acc * 16 + hex_digit_value(char_at(s, i)) as nat,
        );
    }
}

/// Outcome of scanning a raw (triple-quoted) string's body: the offset just
/// past everything consumed (closing quotes included), the untrimmed content
/// with carriage returns dropped, and whether the string was unterminated.
pub ghost struct RawScan {
    pub end: int,
    pub content: Seq<char>,
    pub err: bool,
}

/// Scans a raw string's body from `i` (just past the three opening quotes).
/// It ends at the first `"""`; carriage returns are dropped from the content;
/// reaching the source's end with fewer than three characters left before a
/// terminator is an unterminated-string error, and consumption stops at the
/// source's end rather than reading past it.
pub open spec fn raw_string_scan(s: Seq<char>, i: int) -> RawScan
    decreases s.len() - i,
{
    let c = char_at(s, i);
    let c1 = char_at(s, i + 1);
    let c2 = char_at(s, i + 2);
    if c == '"' && c1 == '"' && c2 == '"' {
        RawScan { end: i + 3, content: Seq::empty(), err: false }
    } else if c == '\r' {
        raw_string_scan(s, i + 1)
    } else if c == '\0' || c1 == '\0' || c2 == '\0' {
        let after = if 0 <= i < s.len() {
            i + 1
        } else {
            i
        };
        RawScan {
            end: if after + 2 <= s.len() {
                after + 2
            } else {
                s.len() as int
            },
            content: Seq::empty(),
            err: true,
        }
    } else {
        let rest = raw_string_scan(s, i + 1);
        RawScan { end: rest.end, content: seq![c] + rest.content, err: rest.err }
    }
}

/// Whether `c` is plain intra-line whitespace.
pub open spec fn is_ws_char(c: char) -> bool {
    c == ' ' || c == '\t'
}

/// The index of the first newline at or after `i` in `content`, or -1.
pub open spec fn first_nl(content: Seq<char>, i: int) -> int
    decreases content.len() - i,
{
    if i < 0 || i >= content.len() {
        -1
    } else if content[i] == '\n' {
        i
    } else {
        first_nl(content, i + 1)
    }
}

/// The index of the last newline at or before `i` in `content`, or -1.
pub open spec fn last_nl(content: Seq<char>, i: int) -> int
    decreases i + 1,
{
    if i < 0 || i >= content.len() {
        -1
    } else if content[i] == '\n' {
        i
    } else {
        last_nl(content, i - 1)
    }
}

/// Whether every character of `content[a..b]` is plain whitespace.
pub open spec fn all_ws(content: Seq<char>, a: int, b: int) -> bool {
    forall|j: int| a <= j < b ==> is_ws_char(#[trigger] content[j])
}

/// The raw string trim rule: if the first content line (up to and including
/// its newline) is purely leading whitespace, it is dropped entirely; and
/// symmetrically, if only whitespace follows the last newline, that last line
/// is dropped from its newline on. A single-line literal — no newline at
/// all — is never trimmed.
pub open spec fn raw_trim(content: Seq<char>) -> Seq<char> {
    let f = first_nl(content, 0);
    let l = last_nl(content, content.len() - 1);
    let offset = if f != -1 && all_ws(content, 0, f) {
        f + 1
    } else {
        0
    };
    let count = if l != -1 && all_ws(content, l + 1, content.len() as int) {
        l
    } else {
        content.len() as int
    };
    if offset > count {
        Seq::empty()
    } else {
        content.subrange(offset, count)
    }
}

/// Appending a character moves the first newline only when there was none
/// and the new character is itself a newline.
pub proof fn lemma_first_nl_push(content: Seq<char>, c: char, i: int)
    requires
        0 <= i <= content.len(),
    ensures
        first_nl(content.push(c), i) == (if first_nl(content, i) != -1 {
            first_nl(content, i)
        } else if c == '\n' {
            content.len() as int
        } else {
            -1
        }),
    decreases content.len() - i,
{
    if i < content.len() {
        if content[i] != '\n' {
            lemma_first_nl_push(content, c, i + 1);
        }
    } else {
        assert(first_nl(content.push(c), content.len() as int + 1) == -1);
    }
}

/// Appending a character does not change where the last newline at or before
/// an existing index is.
pub proof fn lemma_last_nl_push_prefix(content: Seq<char>, c: char, i: int)
    requires
        i < content.len(),
    ensures
        last_nl(content.push(c), i) == last_nl(content, i),
    decreases i + 1,
{
    if i >= 0 {
        if content[i] != '\n' {
            lemma_last_nl_push_prefix(content, c, i - 1);
        }
    }
}

/// The token type of a character that always lexes as a one-character
/// token, or None for every character that needs lookahead or other
/// handling.
pub open spec fn simple_token_type(c: char) -> Option<TokenType> {
    if c == '(' {
        Option::Some(TokenType::LEFT_PAREN)
    } else if c == '[' {
        Option::Some(TokenType::LEFT_BRACKET)
    } else if c == ']' {
        Option::Some(TokenType::RIGHT_BRACKET)
    } else if c == '{' {
        Option::Some(TokenType::LEFT_BRACE)
    } else if c == '}' {
        Option::Some(TokenType::RIGHT_BRACE)
    } else if c == ':' {
        Option::Some(TokenType::COLON)
    } else if c == ',' {
        Option::Some(TokenType::COMMA)
    } else if c == '*' {
        Option::Some(TokenType::STAR)
    } else if c == '%' {
        Option::Some(TokenType::PERCENT)
    } else if c == '^' {
        Option::Some(TokenType::CARET)
    } else if c == '+' {
        Option::Some(TokenType::PLUS)
    } else if c == '-' {
        Option::Some(TokenType::MINUS)
    } else if c == '~' {
        Option::Some(TokenType::TILDE)
    } else if c == '?' {
        Option::Some(TokenType::QUESTION)
    } else {
        Option::None
    }
}

/// Whether `c` can begin an identifier.
pub open spec fn is_name_char(c: char) -> bool {
    (('a' as u32) <= (c as u32) && (c as u32) <= ('z' as u32)) || (('A' as u32) <= (c as u32)
        && (c as u32) <= ('Z' as u32)) || c == '_'
}

/// Whether `c` is a decimal digit.
pub open spec fn is_digit_char(c: char) -> bool {
    ('0' as u32) <= (c as u32) && (c as u32) <= ('9' as u32)
}

/// Whether `c` is a hexadecimal digit.
pub open spec fn is_hex_digit_char(c: char) -> bool {
    is_digit_char(c) || (('a' as u32) <= (c as u32) && (c as u32) <= ('f' as u32)) || (('A' as u32)
        <= (c as u32) && (c as u32) <= ('F' as u32))
}

/// The numeric value of a hexadecimal digit, or -1 for any other character.
pub open spec fn hex_digit_value(c: char) -> int {
    if is_digit_char(c) {
        c as u32 - '0' as u32
    } else if ('a' as u32) <= (c as u32) && (c as u32) <= ('f' as u32) {
        c as u32 - 'a' as u32 + 10
    } else if ('A' as u32) <= (c as u32) && (c as u32) <= ('F' as u32) {
        c as u32 - 'A' as u32 + 10
    } else {
        -1
    }
}

pub fn is_name(c: char) -> (r: bool)
    ensures
        r == is_name_char(c),
{
    let u = c as u32;
    (u >= 'a' as u32 && u <= 'z' as u32) || (u >= 'A' as u32 && u <= 'Z' as u32) || c == '_'
}

pub fn is_digit(c: char) -> (r: bool)
    ensures
        r == is_digit_char(c),
{
    let u = c as u32;
    u >= '0' as u32 && u <= '9' as u32
}

/// The lexer's state. It owns the source buffer and a cursor into it, the
/// three-token lookahead window, and the interpolation bookkeeping: one
/// unmatched-open-paren counter per active interpolation level, innermost
/// last. Tokens store owned copies of their literal text, so they do not
/// depend on the source buffer's lifetime.
pub struct Parser {
    /// The source code being parsed.
    pub source: Vec<char>,
    /// The beginning of the currently-being-lexed token in `source`.
    pub token_start: usize,
    /// The current character being lexed in `source`.
    pub current_char_i: usize,
    /// The 1-based line number of the current character.
    pub current_line: usize,
    /// The upcoming token.
    pub next: Token,
    /// The most recently lexed token.
    pub current: Token,
    /// The most recently consumed/advanced token.
    pub previous: Token,
    /// Tracks the lexing state when tokenizing interpolated strings.
    ///
    /// Interpolated strings make the lexer not strictly regular: whether a ")"
    /// is a RIGHT_PAREN token or ends an interpolated expression depends on
    /// whether we are inside a string interpolation and how many unmatched "("
    /// there are, and interpolation can nest:
    ///
    ///     " %( " %( inner ) " ) "
    ///
    /// One entry per level of current interpolation nesting, innermost last;
    /// each value is the number of unmatched "(" waiting to be closed.
    pub parens: Vec<usize>,
    /// Whether errors should be recorded or discarded (a module compiled
    /// speculatively, e.g. for an existence check, suppresses them).
    pub print_errors: bool,
    /// If a syntax error has occurred.
    pub has_error: bool,
    /// The diagnostic sink: errors recorded so far, oldest first.
    pub diagnostics: Vec<Diagnostic>,
}

impl Parser {
    /// The lexer's internal invariant: the token start and the cursor stay
    /// inside the buffer, the line count can only have grown by consumed
    /// newlines, and the interpolation stack is bounded with every counter
    /// live.
    pub open spec fn wf(self) -> bool {
        &&& self.token_start <= self.current_char_i <= self.source@.len()
        &&& self.source@.len() <= usize::MAX - 2
        &&& 1 <= self.current_line <= self.current_char_i + 1
        &&& self.parens@.len() <= MAX_INTERPOLATION_NESTING
        &&& forall|i: int|
            0 <= i < self.parens@.len() ==> 1 <= #[trigger] self.parens@[i]
                <= self.current_char_i
    }

    /// A fresh lexer over `source`, positioned at its start, with an empty
    /// lookahead window and no errors.
    pub fn new(source: Vec<char>, print_errors: bool) -> (p: Parser)
        requires
            source@.len() <= usize::MAX - 2,
        ensures
            p.wf(),
            p.source == source,
            p.token_start == 0,
            p.current_char_i == 0,
            p.current_line == 1,
            p.parens@ == Seq::<usize>::empty(),
            p.print_errors == print_errors,
            !p.has_error,
            p.diagnostics@ == Seq::<Diagnostic>::empty(),
            p.next.ty == TokenType::ERROR,
            p.current.ty == TokenType::ERROR,
            p.previous.ty == TokenType::ERROR,
    {
        let parens: Vec<usize> = Vec::new();
        let diagnostics: Vec<Diagnostic> = Vec::new();
        let p = Parser {
            source,
            token_start: 0,
            current_char_i: 0,
            current_line: 1,
            next: Token {
                ty: TokenType::ERROR,
                start: 0,
                length: 0,
                line: 1,
                value: Value::Null,
            },
            current: Token {
                ty: TokenType::ERROR,
                start: 0,
                length: 0,
                line: 1,
                value: Value::Null,
            },
            previous: Token {
                ty: TokenType::ERROR,
                start: 0,
                length: 0,
                line: 1,
                value: Value::Null,
            },
            parens,
            print_errors,
            has_error: false,
            diagnostics,
        };
        proof {
            assert(p.parens@ =~= Seq::<usize>::empty());
            assert(p.diagnostics@ =~= Seq::<Diagnostic>::empty());
        }
        p
    }

    /// Records an error at `line` and makes the sticky error flag true.
    /// The diagnostic itself is delivered to the sink only when error
    /// printing is on; a suppressed diagnostic is dropped silently, but the
    /// flag is still set, so the caller can refuse to execute the invalid
    /// output either way.
    pub fn print_error(&mut self, line: usize, kind: DiagKind)
        ensures
            (Parser {
                has_error: old(self).has_error,
                diagnostics: old(self).diagnostics,
                ..*final(self)
            }) == *old(self),
            final(self).has_error,
            old(self).print_errors ==> final(self).diagnostics@ == old(self).diagnostics@.push(
                (Diagnostic { kind, line }),
            ),
            !old(self).print_errors ==> final(self).diagnostics == old(self).diagnostics,
    {
        self.has_error = true;
        if self.print_errors {
            self.diagnostics.push(Diagnostic { kind, line });
        }
    }

    /// Records a lexical error at the current line.
    pub fn lex_error(&mut self, kind: DiagKind)
        ensures
            (Parser {
                has_error: old(self).has_error,
                diagnostics: old(self).diagnostics,
                ..*final(self)
            }) == *old(self),
            final(self).has_error,
            old(self).print_errors ==> final(self).diagnostics@ == old(self).diagnostics@.push(
                (Diagnostic { kind, line: old(self).current_line }),
            ),
            !old(self).print_errors ==> final(self).diagnostics == old(self).diagnostics,
    {
        let line = self.current_line;
        self.print_error(line, kind);
    }

    /// Copies `length` characters of the token being lexed, starting at the
    /// token's start offset.
    pub fn read_token_str(&self, length: usize) -> (r: Vec<char>)
        requires
            self.wf(),
            self.token_start + length <= self.source@.len(),
        ensures
            r@ == self.source@.subrange(
                self.token_start as int,
                self.token_start + length,
            ),
    {
        let mut r: Vec<char> = Vec::new();
        let mut i: usize = 0;
        while i < length
            invariant
                self.token_start + length <= self.source@.len(),
                self.source@.len() <= usize::MAX - 2,
                i <= length,
                r@ =~= self.source@.subrange(self.token_start as int, self.token_start + i),
            decreases length - i,
        {
            r.push(self.source[self.token_start + i]);
            proof {
                assert(r@ =~= self.source@.subrange(
                    self.token_start as int,
                    self.token_start + i + 1,
                ));
            }
            i = i + 1;
        }
        r
    }

    /// The character under the cursor, or NUL at the end of the source.
    pub fn peek_char(&self) -> (c: char)
        ensures
            c == char_at(self.source@, self.current_char_i as int),
    {
        if self.current_char_i < self.source.len() {
            self.source[self.current_char_i]
        } else {
            '\0'
        }
    }

    /// The character one past the cursor, or NUL at the end of the source.
    pub fn peek_next_char(&self) -> (c: char)
        requires
            self.wf(),
        ensures
            c == char_at(self.source@, self.current_char_i + 1),
    {
        if self.current_char_i < self.source.len() && self.current_char_i + 1 < self.source.len() {
            self.source[self.current_char_i + 1]
        } else {
            '\0'
        }
    }

    /// Consumes and returns the character under the cursor, counting lines.
    /// At the end of the source it returns NUL and stays put: the lexer never
    /// moves the cursor past the buffer's end.
    pub fn next_char(&mut self) -> (c: char)
        requires
            old(self).wf(),
        ensures
            final(self).wf(),
            (Parser {
                current_char_i: old(self).current_char_i,
                current_line: old(self).current_line,
                ..*final(self)
            }) == *old(self),
            c == char_at(old(self).source@, old(self).current_char_i as int),
            final(self).current_char_i == if old(self).current_char_i < old(self).source@.len() {
                old(self).current_char_i + 1
            } else {
                old(self).current_char_i as int
            },
            final(self).current_line == old(self).current_line + (if c == '\n' {
                1int
            } else {
                0int
            }),
    {
        let c = self.peek_char();
        if self.current_char_i < self.source.len() {
            self.current_char_i = self.current_char_i + 1;
        }
        if c == '\n' {
            self.current_line = self.current_line + 1;
        }
        c
    }

    /// If the character under the cursor is `c`, consumes it and reports
    /// success.
    pub fn match_char(&mut self, c: char) -> (r: bool)
        requires
            old(self).wf(),
            c != '\0',
        ensures
            final(self).wf(),
            (Parser {
                current_char_i: old(self).current_char_i,
                current_line: old(self).current_line,
                ..*final(self)
            }) == *old(self),
            r == (char_at(old(self).source@, old(self).current_char_i as int) == c),
            final(self).current_char_i == old(self).current_char_i + (if r {
                1int
            } else {
                0int
            }),
            final(self).current_line == old(self).current_line + (if r && c == '\n' {
                1int
            } else {
                0int
            }),
    {
        if self.peek_char() != c {
            return false;
        }
        self.next_char();
        true
    }

    /// Sets the upcoming token to the given type, spanning from the token
    /// start to the cursor on the current line. The token's value, if any,
    /// was stored by the caller beforehand and is kept. A LINE token is
    /// reported on the line the newline ended, not the one it began.
    pub fn make_token(&mut self, ty: TokenType)
        requires
            old(self).wf(),
            ty == TokenType::LINE ==> old(self).current_line >= 2,
        ensures
            final(self).wf(),
            (Parser { next: old(self).next, ..*final(self) }) == *old(self),
            final(self).next.ty == ty,
            final(self).next.start == old(self).token_start,
            final(self).next.length == old(self).current_char_i - old(self).token_start,
            final(self).next.line == (if ty == TokenType::LINE {
                old(self).current_line - 1
            } else {
                old(self).current_line as int
            }),
            final(self).next.value == old(self).next.value,
    {
        self.next.ty = ty;
        self.next.start = self.token_start;
        self.next.length = self.current_char_i - self.token_start;
        self.next.line = self.current_line;
        // Make line tokens appear on the line containing the "\n".
        if self.next.ty == TokenType::LINE {
            self.next.line = self.next.line - 1;
        }
    }

    /// If the current character is `c`, consumes it and makes a token of type
    /// `two`. Otherwise makes a token of type `one`. This is how the
    /// two-character operators are lexed: once the first character has been
    /// seen, the merged token is committed to before any one-character token
    /// can be produced.
    pub fn two_char_token(&mut self, c: char, two: TokenType, one: TokenType)
        requires
            old(self).wf(),
            c != '\0',
            c != '\n',
            two != TokenType::LINE,
            one != TokenType::LINE,
        ensures
            final(self).wf(),
            (Parser {
                current_char_i: old(self).current_char_i,
                next: old(self).next,
                ..*final(self)
            }) == *old(self),
            final(self).next.ty == (if char_at(
                old(self).source@,
                old(self).current_char_i as int,
            ) == c {
                two
            } else {
                one
            }),
            final(self).current_char_i == old(self).current_char_i + (if char_at(
                old(self).source@,
                old(self).current_char_i as int,
            ) == c {
                1int
            } else {
                0int
            }),
            final(self).next.start == old(self).token_start,
            final(self).next.length == final(self).current_char_i - old(self).token_start,
            final(self).next.line == old(self).current_line,
            final(self).next.value == old(self).next.value,
    {
        let matched = self.match_char(c);
        if matched {
            self.make_token(two);
        } else {
            self.make_token(one);
        }
    }

    /// Skips the rest of the current line. The terminating newline (if any)
    /// is left for the caller, which lexes it as a LINE token.
    pub fn skip_line_comment(&mut self)
        requires
            old(self).wf(),
        ensures
            final(self).wf(),
            (Parser { current_char_i: old(self).current_char_i, ..*final(self) }) == *old(self),
            old(self).current_char_i <= final(self).current_char_i,
            final(self).current_char_i == line_comment_end(
                old(self).source@,
                old(self).current_char_i as int,
            ),
    {
        while self.peek_char() != '\n' && self.peek_char() != '\0'
            invariant
                self.wf(),
                old(self).current_char_i <= self.current_char_i,
                (Parser { current_char_i: old(self).current_char_i, ..*self }) == *old(self),
                line_comment_end(self.source@, self.current_char_i as int) == line_comment_end(
                    old(self).source@,
                    old(self).current_char_i as int,
                ),
            decreases self.source@.len() - self.current_char_i,
        {
            self.next_char();
        }
    }

    /// Skips the rest of a block comment. Block comments nest: each inner
    /// `/*` must be closed before the outer one can be. When the source ends
    /// with opens left unclosed the error flag is set and the cursor stops at
    /// the end of the source; it never reads past it.
    pub fn skip_block_comment(&mut self)
        requires
            old(self).wf(),
        ensures
            final(self).wf(),
            (Parser {
                current_char_i: old(self).current_char_i,
                current_line: old(self).current_line,
                has_error: old(self).has_error,
                diagnostics: old(self).diagnostics,
                ..*final(self)
            }) == *old(self),
            old(self).current_char_i <= final(self).current_char_i,
            final(self).current_line == old(self).current_line + newlines_in(
                old(self).source@,
                old(self).current_char_i as int,
                final(self).current_char_i as int,
            ),
            match block_comment_end(old(self).source@, old(self).current_char_i as int, 1) {
                Option::Some(e) => final(self).current_char_i == e && final(self).has_error == old(self).has_error && final(self).diagnostics == old(self).diagnostics,
                Option::None => final(self).has_error && (old(self).print_errors ==> final(self).diagnostics@ == old(self).diagnostics@.push(
                    (Diagnostic {
                        kind: DiagKind::UnterminatedBlockComment,
                        line: final(self).current_line,
                    }),
                )) && (!old(self).print_errors ==> final(self).diagnostics == old(self).diagnostics),
            },
    {
        let ghost s = self.source@;
        let ghost c0 = self.current_char_i as int;
        let ghost l0 = self.current_line;
        let mut nesting: usize = 1;
        while nesting > 0
            invariant
                self.wf(),
                (Parser {
                    current_char_i: old(self).current_char_i,
                    current_line: old(self).current_line,
                    ..*self
                }) == *old(self),
                s == self.source@,
                c0 == old(self).current_char_i as int,
                l0 == old(self).current_line,
                c0 <= self.current_char_i,
                nesting <= self.current_char_i + 1,
                self.current_line == l0 + newlines_in(s, c0, self.current_char_i as int),
                nesting >= 1 ==> block_comment_end(s, c0, 1) == block_comment_end(
                    s,
                    self.current_char_i as int,
                    nesting as nat,
                ),
                nesting == 0 ==> block_comment_end(s, c0, 1) == Option::Some(
                    self.current_char_i as int,
                ),
            decreases self.source@.len() - self.current_char_i,
        {
            let ghost cur0 = self.current_char_i as int;
            if self.peek_char() == '\0' {
                self.lex_error(DiagKind::UnterminatedBlockComment);
                return;
            }
            if self.peek_char() == '/' && self.peek_next_char() == '*' {
                self.next_char();
                self.next_char();
                nesting = nesting + 1;
                proof {
                    lemma_newlines_in_step(s, c0, cur0);
                }
            } else if self.peek_char() == '*' && self.peek_next_char() == '/' {
                self.next_char();
                self.next_char();
                nesting = nesting - 1;
                proof {
                    lemma_newlines_in_step(s, c0, cur0);
                }
            } else {
                // Regular comment character.
                self.next_char();
            }
        }
    }

    /// Reads the next character, which should be a hex digit (0-9, a-f, or
    /// A-F) and returns its numeric value. If the character isn't a hex digit
    /// it is left unconsumed — that keeps an unterminated string from being
    /// read past its end — and -1 is returned.
    pub fn read_hex_digit(&mut self) -> (r: i32)
        requires
            old(self).wf(),
        ensures
            final(self).wf(),
            (Parser { current_char_i: old(self).current_char_i, ..*final(self) }) == *old(self),
            r == hex_digit_value(char_at(old(self).source@, old(self).current_char_i as int)),
            final(self).current_char_i == old(self).current_char_i + (if is_hex_digit_char(
                char_at(old(self).source@, old(self).current_char_i as int),
            ) {
                1int
            } else {
                0int
            }),
    {
        let c = self.peek_char();
        let u = c as u32;
        if u >= '0' as u32 && u <= '9' as u32 {
            self.next_char();
            return (u - '0' as u32) as i32;
        }
        if u >= 'a' as u32 && u <= 'f' as u32 {
            self.next_char();
            return (u - 'a' as u32 + 10) as i32;
        }
        if u >= 'A' as u32 && u <= 'F' as u32 {
            self.next_char();
            return (u - 'A' as u32 + 10) as i32;
        }
        // Not a hex digit: leave it unconsumed.
        -1
    }

    /// Captures the numeric literal just scanned: the upcoming token becomes
    /// a NUMBER spanning from the token start to the cursor, carrying the
    /// lexeme's text as its value. Decoding that text into the runtime's
    /// number representation is the collaborating virtual machine's concern.
    pub fn make_number(&mut self)
        requires
            old(self).wf(),
        ensures
            final(self).wf(),
            (Parser { next: old(self).next, ..*final(self) }) == *old(self),
            final(self).next.ty == TokenType::NUMBER,
            final(self).next.start == old(self).token_start,
            final(self).next.length == old(self).current_char_i - old(self).token_start,
            final(self).next.line == old(self).current_line,
            value_is_num(
                final(self).next.value,
                old(self).source@.subrange(
                    old(self).token_start as int,
                    old(self).current_char_i as int,
                ),
            ),
    {
        let length = self.current_char_i - self.token_start;
        let text = self.read_token_str(length);
        self.next.value = Value::Num(text);
        self.make_token(TokenType::NUMBER);
    }

    /// Finishes lexing a hexadecimal number literal. The cursor sits on the
    /// `x` of the `0x` prefix; everything through the last hex digit becomes
    /// the NUMBER token.
    pub fn read_hex_number(&mut self)
        requires
            old(self).wf(),
            char_at(old(self).source@, old(self).current_char_i as int) == 'x',
        ensures
            final(self).wf(),
            (Parser {
                current_char_i: old(self).current_char_i,
                next: old(self).next,
                ..*final(self)
            }) == *old(self),
            final(self).current_char_i == hex_digits_end(
                old(self).source@,
                old(self).current_char_i + 1,
            ),
            final(self).next.ty == TokenType::NUMBER,
            final(self).next.start == old(self).token_start,
            final(self).next.length == final(self).current_char_i - old(self).token_start,
            final(self).next.line == old(self).current_line,
            value_is_num(
                final(self).next.value,
                old(self).source@.subrange(
                    old(self).token_start as int,
                    final(self).current_char_i as int,
                ),
            ),
    {
        let ghost s = self.source@;
        let ghost c1 = self.current_char_i + 1;
        // Skip past the `x` used to denote a hexadecimal literal.
        self.next_char();
        // Iterate over all the valid hexadecimal digits found.
        let mut more = true;
        while more
            invariant
                self.wf(),
                (Parser { current_char_i: old(self).current_char_i, ..*self }) == *old(self),
                s == self.source@,
                c1 == old(self).current_char_i + 1,
                c1 <= self.current_char_i,
                more ==> hex_digits_end(s, self.current_char_i as int) == hex_digits_end(s, c1),
                !more ==> self.current_char_i == hex_digits_end(s, c1),
            decreases self.source@.len() - self.current_char_i + (if more {
                1int
            } else {
                0int
            }),
        {
            let d = self.read_hex_digit();
            if d == -1 {
                more = false;
            }
        }
        self.make_number();
    }

    /// Finishes lexing a number literal: the run of digits, a fractional part
    /// only if its `.` is followed by a digit (so method calls on number
    /// literals are not misread), and an optional scientific exponent with an
    /// optional sign. An exponent marker with no digit after it is a lexical
    /// error; scanning still continues.
    pub fn read_number(&mut self)
        requires
            old(self).wf(),
        ensures
            final(self).wf(),
            (Parser {
                current_char_i: old(self).current_char_i,
                next: old(self).next,
                has_error: old(self).has_error,
                diagnostics: old(self).diagnostics,
                ..*final(self)
            }) == *old(self),
            final(self).current_char_i == number_end(
                old(self).source@,
                old(self).current_char_i as int,
            ),
            final(self).has_error == (old(self).has_error || number_exp_missing_digit(
                old(self).source@,
                old(self).current_char_i as int,
            )),
            !number_exp_missing_digit(old(self).source@, old(self).current_char_i as int) ==> final(self).diagnostics == old(self).diagnostics,
            number_exp_missing_digit(old(self).source@, old(self).current_char_i as int) ==> (old(self).print_errors ==> final(self).diagnostics@ == old(self).diagnostics@.push(
                (Diagnostic {
                    kind: DiagKind::UnterminatedScientificNotation,
                    line: old(self).current_line,
                }),
            )) && (!old(self).print_errors ==> final(self).diagnostics == old(self).diagnostics),
            final(self).next.ty == TokenType::NUMBER,
            final(self).next.start == old(self).token_start,
            final(self).next.length == final(self).current_char_i - old(self).token_start,
            final(self).next.line == old(self).current_line,
            value_is_num(
                final(self).next.value,
                old(self).source@.subrange(
                    old(self).token_start as int,
                    final(self).current_char_i as int,
                ),
            ),
    {
        let ghost s = self.source@;
        let ghost c0 = self.current_char_i as int;
        while is_digit(self.peek_char())
            invariant
                self.wf(),
                (Parser { current_char_i: old(self).current_char_i, ..*self }) == *old(self),
                s == self.source@,
                c0 == old(self).current_char_i as int,
                c0 <= self.current_char_i,
                digits_end(s, self.current_char_i as int) == digits_end(s, c0),
            decreases self.source@.len() - self.current_char_i,
        {
            self.next_char();
        }
        // See if it has a floating point. Make sure there is a digit after
        // the "." so we don't get confused by method calls on number
        // literals.
        if self.peek_char() == '.' && is_digit(self.peek_next_char()) {
            let ghost d1 = self.current_char_i + 1;
            self.next_char();
            while is_digit(self.peek_char())
                invariant
                    self.wf(),
                    (Parser { current_char_i: old(self).current_char_i, ..*self }) == *old(self),
                    s == self.source@,
                    d1 <= self.current_char_i,
                    digits_end(s, self.current_char_i as int) == digits_end(s, d1 as int),
                decreases self.source@.len() - self.current_char_i,
            {
                self.next_char();
            }
        }
        proof {
            assert(self.current_char_i == number_frac_end(s, c0));
        }
        // See if the number is in scientific notation.
        let mut has_exp = self.match_char('e');
        if !has_exp {
            has_exp = self.match_char('E');
        }
        if has_exp {
            // Allow a single positive/negative exponent symbol.
            if !self.match_char('+') {
                self.match_char('-');
            }
            if !is_digit(self.peek_char()) {
                self.lex_error(DiagKind::UnterminatedScientificNotation);
            }
            let ghost g = self.current_char_i as int;
            let ghost he = self.has_error;
            let ghost dg = self.diagnostics;
            while is_digit(self.peek_char())
                invariant
                    self.wf(),
                    (Parser {
                        current_char_i: old(self).current_char_i,
                        has_error: old(self).has_error,
                        diagnostics: old(self).diagnostics,
                        ..*self
                    }) == *old(self),
                    s == self.source@,
                    g <= self.current_char_i,
                    digits_end(s, self.current_char_i as int) == digits_end(s, g),
                    self.has_error == he,
                    self.diagnostics == dg,
                decreases self.source@.len() - self.current_char_i,
            {
                self.next_char();
            }
        }
        self.make_number();
    }

    /// Finishes lexing an identifier beginning with `first_char` (already
    /// consumed; the token start points at it). Reserved words become their
    /// keyword tokens; everything else becomes a token of type `ty`, which
    /// the caller picks — NAME, or the field kinds for `_`-led names. The
    /// token's value is the identifier's text.
    pub fn read_name(&mut self, ty: TokenType, first_char: char)
        requires
            old(self).wf(),
            ty != TokenType::LINE,
            old(self).current_char_i == old(self).token_start + 1,
            char_at(old(self).source@, old(self).token_start as int) == first_char,
        ensures
            final(self).wf(),
            (Parser {
                current_char_i: old(self).current_char_i,
                next: old(self).next,
                ..*final(self)
            }) == *old(self),
            final(self).current_char_i == name_end(
                old(self).source@,
                old(self).current_char_i as int,
            ),
            final(self).next.ty == keyword_token_type(
                old(self).source@.subrange(
                    old(self).token_start as int,
                    final(self).current_char_i as int,
                ),
                ty,
            ),
            final(self).next.start == old(self).token_start,
            final(self).next.length == final(self).current_char_i - old(self).token_start,
            final(self).next.line == old(self).current_line,
            value_is_str(
                final(self).next.value,
                old(self).source@.subrange(
                    old(self).token_start as int,
                    final(self).current_char_i as int,
                ),
            ),
    {
        let ghost s = self.source@;
        let ghost ts = self.token_start as int;
        let mut buffer: Vec<char> = Vec::new();
        buffer.push(first_char);
        proof {
            assert(buffer@ =~= s.subrange(ts, self.current_char_i as int));
        }
        while is_name(self.peek_char()) || is_digit(self.peek_char())
            invariant
                self.wf(),
                (Parser { current_char_i: old(self).current_char_i, ..*self }) == *old(self),
                s == self.source@,
                ts == self.token_start as int,
                old(self).current_char_i <= self.current_char_i,
                buffer@ == s.subrange(ts, self.current_char_i as int),
                name_end(s, self.current_char_i as int) == name_end(
                    s,
                    old(self).current_char_i as int,
                ),
            decreases self.source@.len() - self.current_char_i,
        {
            let c = self.next_char();
            buffer.push(c);
            proof {
                assert(buffer@ =~= s.subrange(ts, self.current_char_i as int));
            }
        }
        // Update the type if it's a keyword.
        let table = keywords();
        let token_ty = keyword_type(&table, &buffer, ty);
        proof {
            assert(token_ty != TokenType::LINE);
        }
        self.next.value = Value::Str(buffer);
        self.make_token(token_ty);
    }

    /// Finishes lexing a string literal whose opening quote was consumed.
    /// Escapes are decoded into the token's value; a `%(` begins an
    /// interpolated expression (bounded nesting) and ends this segment as an
    /// INTERPOLATION token; the closing quote ends it as a STRING token; the
    /// end of the source is an unterminated-string error and the cursor never
    /// moves past it.
    #[verifier::rlimit(80)]
    pub fn read_string(&mut self)
        requires
            old(self).wf(),
        ensures
            final(self).wf(),
            (Parser {
                current_char_i: old(self).current_char_i,
                current_line: old(self).current_line,
                next: old(self).next,
                parens: old(self).parens,
                has_error: old(self).has_error,
                diagnostics: old(self).diagnostics,
                ..*final(self)
            }) == *old(self),
            final(self).current_char_i == string_scan(
                old(self).source@,
                old(self).current_char_i as int,
                old(self).parens@.len() < MAX_INTERPOLATION_NESTING,
            ).end,
            final(self).current_line == old(self).current_line + newlines_in(
                old(self).source@,
                old(self).current_char_i as int,
                final(self).current_char_i as int,
            ),
            final(self).next.ty == (if string_scan(
                old(self).source@,
                old(self).current_char_i as int,
                old(self).parens@.len() < MAX_INTERPOLATION_NESTING,
            ).interp {
                TokenType::INTERPOLATION
            } else {
                TokenType::STRING
            }),
            final(self).next.start == old(self).token_start,
            final(self).next.length == final(self).current_char_i - old(self).token_start,
            final(self).next.line == final(self).current_line,
            value_is_str(
                final(self).next.value,
                string_scan(
                    old(self).source@,
                    old(self).current_char_i as int,
                    old(self).parens@.len() < MAX_INTERPOLATION_NESTING,
                ).content,
            ),
            final(self).parens@ == (if string_scan(
                old(self).source@,
                old(self).current_char_i as int,
                old(self).parens@.len() < MAX_INTERPOLATION_NESTING,
            ).interp {
                old(self).parens@.push(1usize)
            } else {
                old(self).parens@
            }),
            final(self).has_error == (old(self).has_error || string_scan(
                old(self).source@,
                old(self).current_char_i as int,
                old(self).parens@.len() < MAX_INTERPOLATION_NESTING,
            ).err),
            !string_scan(
                old(self).source@,
                old(self).current_char_i as int,
                old(self).parens@.len() < MAX_INTERPOLATION_NESTING,
            ).err ==> final(self).diagnostics == old(self).diagnostics,
            !old(self).print_errors ==> final(self).diagnostics == old(self).diagnostics,
    {
        let ghost s = self.source@;
        let ghost c0 = self.current_char_i as int;
        let ghost l0 = self.current_line;
        let ghost he0 = self.has_error;
        let ghost dg0 = self.diagnostics;
        let ghost can = self.parens@.len() < MAX_INTERPOLATION_NESTING;
        let mut ty = TokenType::STRING;
        let mut string: Vec<char> = Vec::new();
        let ghost mut err_acc: bool = false;
        let mut done = false;
        while !done
            invariant
                self.wf(),
                (Parser {
                    current_char_i: old(self).current_char_i,
                    current_line: old(self).current_line,
                    parens: old(self).parens,
                    has_error: old(self).has_error,
                    diagnostics: old(self).diagnostics,
                    ..*self
                }) == *old(self),
                s == self.source@,
                c0 == old(self).current_char_i as int,
                l0 == old(self).current_line,
                he0 == old(self).has_error,
                dg0 == old(self).diagnostics,
                can == (old(self).parens@.len() < MAX_INTERPOLATION_NESTING),
                c0 <= self.current_char_i,
                self.current_line == l0 + newlines_in(s, c0, self.current_char_i as int),
                self.has_error == (he0 || err_acc),
                !err_acc ==> self.diagnostics == dg0,
                !self.print_errors ==> self.diagnostics == dg0,
                !done ==> self.parens == old(self).parens,
                !done ==> ty == TokenType::STRING,
                !done ==> string_scan(s, c0, can).end == string_scan(
                    s,
                    self.current_char_i as int,
                    can,
                ).end,
                !done ==> string_scan(s, c0, can).content == string@ + string_scan(
                    s,
                    self.current_char_i as int,
                    can,
                ).content,
                !done ==> string_scan(s, c0, can).interp == string_scan(
                    s,
                    self.current_char_i as int,
                    can,
                ).interp,
                !done ==> string_scan(s, c0, can).err == (err_acc || string_scan(
                    s,
                    self.current_char_i as int,
                    can,
                ).err),
                done ==> self.current_char_i == string_scan(s, c0, can).end && string@
                    == string_scan(s, c0, can).content && err_acc == string_scan(s, c0, can).err
                    && ty == (if string_scan(s, c0, can).interp {
                    TokenType::INTERPOLATION
                } else {
                    TokenType::STRING
                }) && self.parens@ == (if string_scan(s, c0, can).interp {
                    old(self).parens@.push(1usize)
                } else {
                    old(self).parens@
                }),
            decreases self.source@.len() - self.current_char_i + (if done {
                0int
            } else {
                1int
            }),
        {
            let ghost cur0 = self.current_char_i as int;
            let ghost str0 = string@;
            if self.peek_char() == '\0' {
                self.lex_error(DiagKind::UnterminatedString);
                proof {
                    err_acc = true;
                    assert(string_scan(s, c0, can).content =~= string@);
                }
                done = true;
            } else {
                let c = self.next_char();
                if c == '"' {
                    proof {
                        assert(string_scan(s, c0, can).content =~= string@);
                    }
                    done = true;
                } else if c == '%' {
                    if self.parens.len() < MAX_INTERPOLATION_NESTING {
                        let c2 = self.next_char();
                        if c2 != '(' {
                            self.lex_error(DiagKind::ExpectParenAfterPercent);
                            proof {
                                err_acc = true;
                            }
                        }
                        self.parens.push(1);
                        ty = TokenType::INTERPOLATION;
                        proof {
                            lemma_newlines_in_step(s, c0, cur0);
                            assert(string_scan(s, c0, can).content =~= string@);
                        }
                        done = true;
                    } else {
                        self.lex_error(DiagKind::InterpolationTooDeep);
                        proof {
                            err_acc = true;
                        }
                        string.push(c);
                        proof {
                            assert(str0 + seq!['%'] + string_scan(
                                s,
                                self.current_char_i as int,
                                can,
                            ).content =~= str0 + (seq!['%'] + string_scan(
                                s,
                                self.current_char_i as int,
                                can,
                            ).content));
                            assert(string@ =~= str0 + seq!['%']);
                        }
                    }
                } else if c == '\\' {
                    let e = self.next_char();
                    proof {
                        lemma_newlines_in_step(s, c0, cur0);
                    }
                    if e == '"' || e == '\\' || e == '%' || e == '0' || e == 'a' || e == 'b' || e
                        == 'e' || e == 'f' || e == 'n' || e == 'r' || e == 't' || e == 'v' {
                        let m = if e == '"' {
                            '"'
                        } else if e == '\\' {
                            '\\'
                        } else if e == '%' {
                            '%'
                        } else if e == '0' {
                            '\0'
                        } else if e == 'a' {
                            '\u{7}'
                        } else if e == 'b' {
                            '\u{8}'
                        } else if e == 'e' {
                            '\u{1b}'
                        } else if e == 'f' {
                            '\u{c}'
                        } else if e == 'n' {
                            '\n'
                        } else if e == 'r' {
                            '\r'
                        } else if e == 't' {
                            '\t'
                        } else {
                            '\u{b}'
                        };
                        string.push(m);
                        proof {
                            assert(string@ =~= str0 + seq![escape_char(e)]);
                            assert(str0 + seq![escape_char(e)] + string_scan(
                                s,
                                self.current_char_i as int,
                                can,
                            ).content =~= str0 + (seq![escape_char(e)] + string_scan(
                                s,
                                self.current_char_i as int,
                                can,
                            ).content));
                        }
                    } else if e == 'x' {
                        let v = self.read_hex_escape(
                            2,
                            DiagKind::IncompleteByteEscape,
                            DiagKind::InvalidByteEscape,
                        );
                        proof {
                            err_acc = err_acc || hex_escape_scan(s, cur0 + 2, 2, 0).incomplete
                                || hex_escape_scan(s, cur0 + 2, 2, 0).invalid;
                            assert(pow16(0) == 1);
                            assert(pow16(1) == 16);
                            assert(pow16(2) == 256);
                            lemma_newlines_hex_range(s, c0, cur0 + 2, 2, 0);
                            lemma_hex_escape_scan_end(s, cur0 + 2, 2, 0);
                        }
                        string.push((v as u8) as char);
                        proof {
                            assert(string@ =~= str0 + seq![
                                ((hex_escape_scan(s, cur0 + 2, 2, 0).value as u8) as char),
                            ]);
                            assert(str0 + seq![
                                ((hex_escape_scan(s, cur0 + 2, 2, 0).value as u8) as char),
                            ] + string_scan(s, self.current_char_i as int, can).content =~= str0
                                + (seq![
                                ((hex_escape_scan(s, cur0 + 2, 2, 0).value as u8) as char),
                            ] + string_scan(s, self.current_char_i as int, can).content));
                        }
                    } else if e == 'u' {
                        self.read_unicode_escape(&mut string, 4);
                        proof {
                            err_acc = err_acc || hex_escape_scan(s, cur0 + 2, 4, 0).incomplete
                                || hex_escape_scan(s, cur0 + 2, 4, 0).invalid || !is_scalar_value(
                                hex_escape_scan(s, cur0 + 2, 4, 0).value,
                            );
                            lemma_newlines_hex_range(s, c0, cur0 + 2, 4, 0);
                            lemma_hex_escape_scan_end(s, cur0 + 2, 4, 0);
                            assert(str0 + scalar_chars(hex_escape_scan(s, cur0 + 2, 4, 0).value)
                                + string_scan(s, self.current_char_i as int, can).content =~= str0
                                + (scalar_chars(hex_escape_scan(s, cur0 + 2, 4, 0).value)
                                + string_scan(s, self.current_char_i as int, can).content));
                        }
                    } else if e == 'U' {
                        self.read_unicode_escape(&mut string, 8);
                        proof {
                            err_acc = err_acc || hex_escape_scan(s, cur0 + 2, 8, 0).incomplete
                                || hex_escape_scan(s, cur0 + 2, 8, 0).invalid || !is_scalar_value(
                                hex_escape_scan(s, cur0 + 2, 8, 0).value,
                            );
                            lemma_newlines_hex_range(s, c0, cur0 + 2, 8, 0);
                            lemma_hex_escape_scan_end(s, cur0 + 2, 8, 0);
                            assert(str0 + scalar_chars(hex_escape_scan(s, cur0 + 2, 8, 0).value)
                                + string_scan(s, self.current_char_i as int, can).content =~= str0
                                + (scalar_chars(hex_escape_scan(s, cur0 + 2, 8, 0).value)
                                + string_scan(s, self.current_char_i as int, can).content));
                        }
                    } else {
                        self.lex_error(DiagKind::InvalidEscape);
                        proof {
                            err_acc = true;
                        }
                    }
                } else {
                    string.push(c);
                    proof {
                        assert(string@ =~= str0 + seq![c]);
                        assert(str0 + seq![c] + string_scan(
                            s,
                            self.current_char_i as int,
                            can,
                        ).content =~= str0 + (seq![c] + string_scan(
                            s,
                            self.current_char_i as int,
                            can,
                        ).content));
                    }
                }
            }
        }
        self.next.value = Value::Str(string);
        self.make_token(ty);
    }

    /// Finishes lexing a raw (triple-quoted) string literal. The cursor sits
    /// on the second opening quote; the body runs to the next `"""`. The
    /// token's value is the body with carriage returns dropped and the trim
    /// rule applied: a purely-whitespace first line and a purely-whitespace
    /// last line are each stripped. An unterminated raw string is a lexical
    /// error and consumption stops at the source's end.
    #[verifier::rlimit(80)]
    pub fn read_raw_string(&mut self)
        requires
            old(self).wf(),
            char_at(old(self).source@, old(self).current_char_i as int) == '"',
            char_at(old(self).source@, old(self).current_char_i + 1) == '"',
        ensures
            final(self).wf(),
            (Parser {
                current_char_i: old(self).current_char_i,
                current_line: old(self).current_line,
                next: old(self).next,
                has_error: old(self).has_error,
                diagnostics: old(self).diagnostics,
                ..*final(self)
            }) == *old(self),
            final(self).current_char_i == raw_string_scan(
                old(self).source@,
                old(self).current_char_i + 2,
            ).end,
            final(self).current_line == old(self).current_line + newlines_in(
                old(self).source@,
                old(self).current_char_i as int,
                final(self).current_char_i as int,
            ),
            final(self).next.ty == TokenType::STRING,
            final(self).next.start == old(self).token_start,
            final(self).next.length == final(self).current_char_i - old(self).token_start,
            final(self).next.line == final(self).current_line,
            final(self).has_error == (old(self).has_error || raw_string_scan(
                old(self).source@,
                old(self).current_char_i + 2,
            ).err),
            !raw_string_scan(old(self).source@, old(self).current_char_i + 2).err ==> final(self).diagnostics == old(self).diagnostics && value_is_str(
                final(self).next.value,
                raw_trim(raw_string_scan(old(self).source@, old(self).current_char_i + 2).content),
            ),
            raw_string_scan(old(self).source@, old(self).current_char_i + 2).err && old(self).print_errors ==> (exists|d: Diagnostic|
                d.kind == DiagKind::UnterminatedRawString && final(self).diagnostics@ == old(self).diagnostics@.push(d)),
            !old(self).print_errors ==> final(self).diagnostics == old(self).diagnostics,
    {
        let ghost s = self.source@;
        let ghost l0 = self.current_line;
        let ghost he0 = self.has_error;
        let ghost dg0 = self.diagnostics;
        let ghost start0 = self.current_char_i as int;
        let mut string: Vec<char> = Vec::new();
        // Consume the second and third ".
        self.next_char();
        self.next_char();
        proof {
            lemma_newlines_in_step(s, start0, start0);
        }
        let ghost c0 = self.current_char_i as int;
        let mut first_newline: Option<usize> = Option::None;
        let mut last_newline: Option<usize> = Option::None;
        // Whether everything before the first newline, so far, is whitespace.
        let mut leading_ws = true;
        // Whether everything after the last newline, so far, is whitespace.
        let mut trailing_ws = false;
        let mut done = false;
        while !done
            invariant
                self.wf(),
                (Parser {
                    current_char_i: old(self).current_char_i,
                    current_line: old(self).current_line,
                    has_error: old(self).has_error,
                    diagnostics: old(self).diagnostics,
                    ..*self
                }) == *old(self),
                s == self.source@,
                l0 == old(self).current_line,
                he0 == old(self).has_error,
                dg0 == old(self).diagnostics,
                start0 == old(self).current_char_i as int,
                c0 == start0 + 2,
                c0 <= self.current_char_i,
                string@.len() <= self.current_char_i,
                self.current_line == l0 + newlines_in(s, start0, self.current_char_i as int),
                !done ==> self.has_error == he0 && self.diagnostics == dg0,
                !self.print_errors ==> self.diagnostics == dg0,
                !done ==> raw_string_scan(s, c0).end == raw_string_scan(
                    s,
                    self.current_char_i as int,
                ).end,
                !done ==> raw_string_scan(s, c0).content == string@ + raw_string_scan(
                    s,
                    self.current_char_i as int,
                ).content,
                !done ==> raw_string_scan(s, c0).err == raw_string_scan(
                    s,
                    self.current_char_i as int,
                ).err,
                (match first_newline {
                    Option::None => true,
                    Option::Some(f) => f <= string@.len(),
                }),
                (match last_newline {
                    Option::None => true,
                    Option::Some(l) => l <= string@.len(),
                }),
                !done ==> (match first_newline {
                    Option::None => first_nl(string@, 0) == -1 && leading_ws == all_ws(
                        string@,
                        0,
                        string@.len() as int,
                    ),
                    Option::Some(f) => f < string@.len() && first_nl(string@, 0) == f && leading_ws
                        == all_ws(string@, 0, f as int),
                }),
                !done ==> (match last_newline {
                    Option::None => last_nl(string@, string@.len() - 1) == -1,
                    Option::Some(l) => l < string@.len() && last_nl(string@, string@.len() - 1)
                        == l && trailing_ws == all_ws(string@, l + 1, string@.len() as int),
                }),
                done ==> (if raw_string_scan(s, c0).err {
                    self.has_error && raw_string_scan(s, c0).end == (if self.current_char_i + 2
                        <= s.len() {
                        self.current_char_i + 2
                    } else {
                        s.len() as int
                    }) && (self.print_errors ==> (exists|d: Diagnostic|
                        d.kind == DiagKind::UnterminatedRawString && self.diagnostics@ == dg0@.push(
                            d,
                        ))) && (!self.print_errors ==> self.diagnostics == dg0)
                } else {
                    self.current_char_i + 2 == raw_string_scan(s, c0).end && char_at(
                        s,
                        self.current_char_i as int,
                    ) == '"' && char_at(s, self.current_char_i + 1) == '"' && string@
                        == raw_string_scan(s, c0).content && self.has_error == he0
                        && self.diagnostics == dg0 && (match first_newline {
                        Option::None => first_nl(string@, 0) == -1,
                        Option::Some(f) => f < string@.len() && first_nl(string@, 0) == f
                            && leading_ws == all_ws(string@, 0, f as int),
                    }) && (match first_newline {
                        Option::None => true,
                        Option::Some(f) => leading_ws == all_ws(string@, 0, f as int),
                    }) && (match last_newline {
                        Option::None => last_nl(string@, string@.len() - 1) == -1,
                        Option::Some(l) => l < string@.len() && last_nl(string@, string@.len() - 1)
                            == l && trailing_ws == all_ws(string@, l + 1, string@.len() as int),
                    })
                }),
            decreases self.source@.len() - self.current_char_i + (if done {
                0int
            } else {
                1int
            }),
        {
            let ghost cur0 = self.current_char_i as int;
            let ghost str0 = string@;
            let c = self.next_char();
            let c1 = self.peek_char();
            let c2 = self.peek_next_char();
            if c == '"' && c1 == '"' && c2 == '"' {
                done = true;
            } else if c == '\r' {
                // Dropped from the content entirely.
            } else {
                if c == '\n' {
                    last_newline = Option::Some(string.len());
                    trailing_ws = true;
                    if first_newline.is_none() {
                        first_newline = Option::Some(string.len());
                    }
                }
                let is_whitespace = c == ' ' || c == '\t';
                if !(c == '\n' || is_whitespace) {
                    trailing_ws = false;
                }
                if first_newline.is_none() && !is_whitespace && c != '\n' {
                    leading_ws = false;
                }
                if c == '\0' || c1 == '\0' || c2 == '\0' {
                    self.lex_error(DiagKind::UnterminatedRawString);
                    done = true;
                } else {
                    string.push(c);
                    proof {
                        lemma_first_nl_push(str0, c, 0);
                        if str0.len() > 0 {
                            lemma_last_nl_push_prefix(str0, c, str0.len() - 1);
                        }
                        assert(string@ =~= str0 + seq![c]);
                        assert(string@[str0.len() as int] == c);
                        if str0.len() == 0 {
                            assert(last_nl(string@, -1) == -1);
                            assert(first_nl(str0, 0) == -1);
                        }
                        assert(forall|j: int|
                            0 <= j < str0.len() ==> string@[j] == #[trigger] str0[j]);
                        assert(forall|j: int|
                            0 <= j < str0.len() ==> #[trigger] string@[j] == str0[j]);
                        assert(str0 + seq![c] + raw_string_scan(
                            s,
                            self.current_char_i as int,
                        ).content =~= str0 + (seq![c] + raw_string_scan(
                            s,
                            self.current_char_i as int,
                        ).content));
                    }
                }
            }
        }
        let ghost cur_exit = self.current_char_i as int;
        // Consume the second and third ".
        self.next_char();
        self.next_char();
        proof {
            lemma_newlines_in_step(s, start0, cur_exit);
        }
        let len = string.len();
        let mut offset: usize = 0;
        let mut count: usize = len;
        if let Option::Some(f) = first_newline {
            if leading_ws {
                offset = f + 1;
            }
        }
        if let Option::Some(l) = last_newline {
            if trailing_ws {
                count = l;
            }
        }
        let mut trimmed: Vec<char> = Vec::new();
        if offset <= count {
            proof {
                assert(trimmed@ =~= string@.subrange(offset as int, offset as int));
            }
            let mut j = offset;
            while j < count
                invariant
                    offset <= j <= count <= string@.len(),
                    trimmed@ == string@.subrange(offset as int, j as int),
                decreases count - j,
            {
                trimmed.push(string[j]);
                proof {
                    assert(trimmed@ =~= string@.subrange(offset as int, j as int + 1));
                }
                j = j + 1;
            }
        }
        self.next.value = Value::Str(trimmed);
        self.make_token(TokenType::STRING);
    }

    /// Reads up to `digits` hex digits in a string literal and returns their
    /// accumulated value. An escape cut short by the string's closing quote
    /// or the source's end records `incomplete`; any other non-digit records
    /// `invalid` and stays unconsumed, which keeps an unterminated string
    /// from being read past its end.
    pub fn read_hex_escape(&mut self, digits: u32, incomplete: DiagKind, invalid: DiagKind) -> (r:
        u64)
        requires
            old(self).wf(),
            digits <= 8,
        ensures
            final(self).wf(),
            (Parser {
                current_char_i: old(self).current_char_i,
                has_error: old(self).has_error,
                diagnostics: old(self).diagnostics,
                ..*final(self)
            }) == *old(self),
            final(self).current_char_i == hex_escape_scan(
                old(self).source@,
                old(self).current_char_i as int,
                digits as nat,
                0,
            ).end,
            r == hex_escape_scan(
                old(self).source@,
                old(self).current_char_i as int,
                digits as nat,
                0,
            ).value,
            r < pow16(digits as nat),
            final(self).has_error == (old(self).has_error || hex_escape_scan(
                old(self).source@,
                old(self).current_char_i as int,
                digits as nat,
                0,
            ).incomplete || hex_escape_scan(
                old(self).source@,
                old(self).current_char_i as int,
                digits as nat,
                0,
            ).invalid),
            hex_escape_scan(
                old(self).source@,
                old(self).current_char_i as int,
                digits as nat,
                0,
            ).incomplete && old(self).print_errors ==> final(self).diagnostics@ == old(self).diagnostics@.push((Diagnostic { kind: incomplete, line: old(self).current_line })),
            hex_escape_scan(
                old(self).source@,
                old(self).current_char_i as int,
                digits as nat,
                0,
            ).invalid && old(self).print_errors ==> final(self).diagnostics@ == old(self).diagnostics@.push((Diagnostic { kind: invalid, line: old(self).current_line })),
            !hex_escape_scan(
                old(self).source@,
                old(self).current_char_i as int,
                digits as nat,
                0,
            ).incomplete && !hex_escape_scan(
                old(self).source@,
                old(self).current_char_i as int,
                digits as nat,
                0,
            ).invalid ==> final(self).diagnostics == old(self).diagnostics && final(self).has_error
                == old(self).has_error,
            !old(self).print_errors ==> final(self).diagnostics == old(self).diagnostics,
    {
        let ghost s = self.source@;
        let ghost c0 = self.current_char_i as int;
        let ghost he0 = self.has_error;
        let ghost dg0 = self.diagnostics;
        let mut value: u64 = 0;
        let mut i: u32 = 0;
        let mut done = false;
        while !done && i < digits
            invariant
                self.wf(),
                digits <= 8,
                i <= digits,
                s == self.source@,
                c0 == old(self).current_char_i as int,
                (Parser {
                    current_char_i: old(self).current_char_i,
                    has_error: old(self).has_error,
                    diagnostics: old(self).diagnostics,
                    ..*self
                }) == *old(self),
                value < pow16(i as nat),
                !done ==> self.has_error == he0 && self.diagnostics == dg0,
                he0 == old(self).has_error,
                dg0 == old(self).diagnostics,
                !done ==> hex_escape_scan(s, c0, digits as nat, 0) == hex_escape_scan(
                    s,
                    self.current_char_i as int,
                    (digits - i) as nat,
                    value as nat,
                ),
                done ==> self.current_char_i == hex_escape_scan(s, c0, digits as nat, 0).end
                    && value == hex_escape_scan(s, c0, digits as nat, 0).value && (hex_escape_scan(
                    s,
                    c0,
                    digits as nat,
                    0,
                ).incomplete || hex_escape_scan(s, c0, digits as nat, 0).invalid) && self.has_error
                    && (self.print_errors ==> (hex_escape_scan(
                    s,
                    c0,
                    digits as nat,
                    0,
                ).incomplete ==> self.diagnostics@ == dg0@.push(
                    (Diagnostic { kind: incomplete, line: self.current_line }),
                )) && (hex_escape_scan(s, c0, digits as nat, 0).invalid ==> self.diagnostics@
                    == dg0@.push((Diagnostic { kind: invalid, line: self.current_line })))) && (
                !self.print_errors ==> self.diagnostics == dg0),
            decreases digits - i + (if done {
                0int
            } else {
                1int
            }),
        {
            let c = self.peek_char();
            if c == '"' || c == '\0' {
                self.lex_error(incomplete);
                done = true;
            } else {
                let d = self.read_hex_digit();
                if d == -1 {
                    self.lex_error(invalid);
                    done = true;
                } else {
                    proof {
                        lemma_pow16_le((i + 1) as nat, digits as nat);
                        lemma_pow16_le(digits as nat, 8);
                        lemma_pow16_8();
                    }
                    value = value * 16 + (d as u64);
                    i = i + 1;
                }
            }
        }
        proof {
            lemma_pow16_le(i as nat, digits as nat);
        }
        value
    }

    /// Reads a hex-digit Unicode escape in a string literal and appends the
    /// character it denotes to `string` — nothing when the value is no
    /// Unicode scalar value.
    pub fn read_unicode_escape(&mut self, string: &mut Vec<char>, length: u32)
        requires
            old(self).wf(),
            length <= 8,
        ensures
            final(self).wf(),
            (Parser {
                current_char_i: old(self).current_char_i,
                has_error: old(self).has_error,
                diagnostics: old(self).diagnostics,
                ..*final(self)
            }) == *old(self),
            final(self).current_char_i == hex_escape_scan(
                old(self).source@,
                old(self).current_char_i as int,
                length as nat,
                0,
            ).end,
            final(string)@ == old(string)@ + scalar_chars(
                hex_escape_scan(
                    old(self).source@,
                    old(self).current_char_i as int,
                    length as nat,
                    0,
                ).value,
            ),
            final(self).has_error == (old(self).has_error || hex_escape_scan(
                old(self).source@,
                old(self).current_char_i as int,
                length as nat,
                0,
            ).incomplete || hex_escape_scan(
                old(self).source@,
                old(self).current_char_i as int,
                length as nat,
                0,
            ).invalid || !is_scalar_value(
                hex_escape_scan(
                    old(self).source@,
                    old(self).current_char_i as int,
                    length as nat,
                    0,
                ).value,
            )),
            !hex_escape_scan(
                old(self).source@,
                old(self).current_char_i as int,
                length as nat,
                0,
            ).incomplete && !hex_escape_scan(
                old(self).source@,
                old(self).current_char_i as int,
                length as nat,
                0,
            ).invalid && is_scalar_value(
                hex_escape_scan(
                    old(self).source@,
                    old(self).current_char_i as int,
                    length as nat,
                    0,
                ).value,
            ) ==> final(self).diagnostics == old(self).diagnostics && final(self).has_error == old(self).has_error,
            !old(self).print_errors ==> final(self).diagnostics == old(self).diagnostics,
    {
        let value = self.read_hex_escape(
            length,
            DiagKind::IncompleteUnicodeEscape,
            DiagKind::InvalidUnicodeEscape,
        );
        if value <= 0x10FFFF && !(value >= 0xD800 && value <= 0xDFFF) {
            if let Option::Some(c) = char_from_u32(value as u32) {
                string.push(c);
                proof {
                    vstd::utf8::char_u32_cast(c, value as u32);
                    assert(string@ =~= old(string)@ + scalar_chars(value as nat));
                }
            }
        } else {
            // The digits decode to no Unicode scalar value — a surrogate or
            // a value past the last code point: a lexical error, and the
            // escape contributes no character.
            self.lex_error(DiagKind::InvalidCodePoint);
            proof {
                assert(string@ =~= old(string)@ + scalar_chars(value as nat));
            }
        }
    }

    /// Lexes the next token and shifts the lookahead window: the consumed
    /// token moves to `previous`, the lookahead to `current`, and a fresh
    /// token is scanned into `next`. Whitespace, comments and a first-line
    /// shebang are skipped. Two-character operators are recognized by a
    /// one-character lookahead merge before any one-character token can be
    /// produced; once the source is exhausted every further token is EOF.
    #[verifier::rlimit(100)]
    pub fn next_token(&mut self)
        requires
            old(self).wf(),
        ensures
            final(self).wf(),
            final(self).source == old(self).source,
            final(self).print_errors == old(self).print_errors,
            token_like(final(self).previous, old(self).current),
            token_like(final(self).current, old(self).next),
            old(self).next.ty == TokenType::EOF ==> final(self).next == old(self).next && final(self).current_char_i == old(self).current_char_i && final(self).current_line == old(self).current_line && final(self).has_error == old(self).has_error && final(self).diagnostics == old(self).diagnostics && final(self).parens == old(self).parens,
            old(self).next.ty != TokenType::EOF && char_at(
                old(self).source@,
                old(self).current_char_i as int,
            ) == '=' ==> final(self).next.ty == (if char_at(
                old(self).source@,
                old(self).current_char_i + 1,
            ) == '=' {
                TokenType::EQEQ
            } else {
                TokenType::EQ
            }) && final(self).next.start == old(self).current_char_i && final(self).next.length
                == (if char_at(old(self).source@, old(self).current_char_i + 1) == '=' {
                2int
            } else {
                1int
            }),
            old(self).next.ty != TokenType::EOF && char_at(
                old(self).source@,
                old(self).current_char_i as int,
            ) == '!' ==> final(self).next.ty == (if char_at(
                old(self).source@,
                old(self).current_char_i + 1,
            ) == '=' {
                TokenType::BANGEQ
            } else {
                TokenType::BANG
            }) && final(self).next.start == old(self).current_char_i && final(self).next.length
                == (if char_at(old(self).source@, old(self).current_char_i + 1) == '=' {
                2int
            } else {
                1int
            }),
            old(self).next.ty != TokenType::EOF && char_at(
                old(self).source@,
                old(self).current_char_i as int,
            ) == '&' ==> final(self).next.ty == (if char_at(
                old(self).source@,
                old(self).current_char_i + 1,
            ) == '&' {
                TokenType::AMPAMP
            } else {
                TokenType::AMP
            }) && final(self).next.start == old(self).current_char_i && final(self).next.length
                == (if char_at(old(self).source@, old(self).current_char_i + 1) == '&' {
                2int
            } else {
                1int
            }),
            old(self).next.ty != TokenType::EOF && char_at(
                old(self).source@,
                old(self).current_char_i as int,
            ) == '|' ==> final(self).next.ty == (if char_at(
                old(self).source@,
                old(self).current_char_i + 1,
            ) == '|' {
                TokenType::PIPEPIPE
            } else {
                TokenType::PIPE
            }) && final(self).next.start == old(self).current_char_i && final(self).next.length
                == (if char_at(old(self).source@, old(self).current_char_i + 1) == '|' {
                2int
            } else {
                1int
            }),
            old(self).next.ty != TokenType::EOF && char_at(
                old(self).source@,
                old(self).current_char_i as int,
            ) == '<' ==> final(self).next.ty == (if char_at(
                old(self).source@,
                old(self).current_char_i + 1,
            ) == '<' {
                TokenType::LTLT
            } else if char_at(old(self).source@, old(self).current_char_i + 1) == '=' {
                TokenType::LTEQ
            } else {
                TokenType::LT
            }) && final(self).next.start == old(self).current_char_i && final(self).next.length
                == (if char_at(old(self).source@, old(self).current_char_i + 1) == '<' || char_at(
                old(self).source@,
                old(self).current_char_i + 1,
            ) == '=' {
                2int
            } else {
                1int
            }),
            old(self).next.ty != TokenType::EOF && char_at(
                old(self).source@,
                old(self).current_char_i as int,
            ) == '>' ==> final(self).next.ty == (if char_at(
                old(self).source@,
                old(self).current_char_i + 1,
            ) == '>' {
                TokenType::GTGT
            } else if char_at(old(self).source@, old(self).current_char_i + 1) == '=' {
                TokenType::GTEQ
            } else {
                TokenType::GT
            }) && final(self).next.start == old(self).current_char_i && final(self).next.length
                == (if char_at(old(self).source@, old(self).current_char_i + 1) == '>' || char_at(
                old(self).source@,
                old(self).current_char_i + 1,
            ) == '=' {
                2int
            } else {
                1int
            }),
            old(self).next.ty != TokenType::EOF && char_at(
                old(self).source@,
                old(self).current_char_i as int,
            ) == '.' ==> final(self).next.ty == (if char_at(
                old(self).source@,
                old(self).current_char_i + 1,
            ) == '.' && char_at(old(self).source@, old(self).current_char_i + 2) == '.' {
                TokenType::DOTDOTDOT
            } else if char_at(old(self).source@, old(self).current_char_i + 1) == '.' {
                TokenType::DOTDOT
            } else {
                TokenType::DOT
            }) && final(self).next.start == old(self).current_char_i && final(self).next.length
                == (if char_at(old(self).source@, old(self).current_char_i + 1) == '.' && char_at(
                old(self).source@,
                old(self).current_char_i + 2,
            ) == '.' {
                3int
            } else if char_at(old(self).source@, old(self).current_char_i + 1) == '.' {
                2int
            } else {
                1int
            }),
            old(self).next.ty != TokenType::EOF && is_digit_char(
                char_at(old(self).source@, old(self).current_char_i as int),
            ) && !(char_at(old(self).source@, old(self).current_char_i as int) == '0' && char_at(
                old(self).source@,
                old(self).current_char_i + 1,
            ) == 'x') ==> final(self).next.ty == TokenType::NUMBER && final(self).next.start == old(self).current_char_i && final(self).current_char_i == number_end(
                old(self).source@,
                old(self).current_char_i + 1,
            ) && value_is_num(
                final(self).next.value,
                old(self).source@.subrange(
                    old(self).current_char_i as int,
                    final(self).current_char_i as int,
                ),
            ),
            old(self).next.ty != TokenType::EOF && char_at(
                old(self).source@,
                old(self).current_char_i as int,
            ) == '0' && char_at(old(self).source@, old(self).current_char_i + 1) == 'x' ==> final(self).next.ty == TokenType::NUMBER && final(self).next.start == old(self).current_char_i
                && final(self).current_char_i == hex_digits_end(
                old(self).source@,
                old(self).current_char_i + 2,
            ),
            old(self).next.ty != TokenType::EOF && is_name_char(
                char_at(old(self).source@, old(self).current_char_i as int),
            ) && char_at(old(self).source@, old(self).current_char_i as int) != '_' ==> final(self).next.ty == keyword_token_type(
                old(self).source@.subrange(
                    old(self).current_char_i as int,
                    name_end(old(self).source@, old(self).current_char_i + 1),
                ),
                TokenType::NAME,
            ) && final(self).next.start == old(self).current_char_i && final(self).current_char_i
                == name_end(old(self).source@, old(self).current_char_i + 1),
            old(self).next.ty != TokenType::EOF && char_at(
                old(self).source@,
                old(self).current_char_i as int,
            ) == '_' ==> final(self).next.ty == keyword_token_type(
                old(self).source@.subrange(
                    old(self).current_char_i as int,
                    name_end(old(self).source@, old(self).current_char_i + 1),
                ),
                if char_at(old(self).source@, old(self).current_char_i + 1) == '_' {
                    TokenType::STATIC_FIELD
                } else {
                    TokenType::FIELD
                },
            ) && final(self).next.start == old(self).current_char_i && final(self).current_char_i
                == name_end(old(self).source@, old(self).current_char_i + 1),
            old(self).next.ty != TokenType::EOF && simple_token_type(
                char_at(old(self).source@, old(self).current_char_i as int),
            ) is Some ==> final(self).next.ty == simple_token_type(
                char_at(old(self).source@, old(self).current_char_i as int),
            ).unwrap() && final(self).next.start == old(self).current_char_i && final(self).next.length == 1 && final(self).current_char_i == old(self).current_char_i + 1,
            old(self).next.ty != TokenType::EOF && char_at(
                old(self).source@,
                old(self).current_char_i as int,
            ) == '(' ==> (if old(self).parens@.len() == 0 {
                final(self).parens == old(self).parens
            } else {
                final(self).parens@ == old(self).parens@.update(
                    old(self).parens@.len() - 1,
                    ((old(self).parens@.last() + 1) as usize),
                )
            }),
            old(self).next.ty != TokenType::EOF && char_at(
                old(self).source@,
                old(self).current_char_i as int,
            ) == ')' && (old(self).parens@.len() == 0 || old(self).parens@.last() > 1) ==> final(self).next.ty == TokenType::RIGHT_PAREN && final(self).next.start == old(self).current_char_i && final(self).next.length == 1 && final(self).parens@ == (if old(self).parens@.len() == 0 {
                old(self).parens@
            } else {
                old(self).parens@.update(
                    old(self).parens@.len() - 1,
                    ((old(self).parens@.last() - 1) as usize),
                )
            }),
            old(self).next.ty != TokenType::EOF && char_at(
                old(self).source@,
                old(self).current_char_i as int,
            ) == ')' && old(self).parens@.len() > 0 && old(self).parens@.last() == 1 ==> final(self).next.ty == (if string_scan(
                old(self).source@,
                old(self).current_char_i + 1,
                true,
            ).interp {
                TokenType::INTERPOLATION
            } else {
                TokenType::STRING
            }) && final(self).current_char_i == string_scan(
                old(self).source@,
                old(self).current_char_i + 1,
                true,
            ).end && value_is_str(
                final(self).next.value,
                string_scan(old(self).source@, old(self).current_char_i + 1, true).content,
            ) && final(self).has_error == (old(self).has_error || string_scan(
                old(self).source@,
                old(self).current_char_i + 1,
                true,
            ).err) && final(self).parens@ == (if string_scan(
                old(self).source@,
                old(self).current_char_i + 1,
                true,
            ).interp {
                old(self).parens@.drop_last().push(1usize)
            } else {
                old(self).parens@.drop_last()
            }),
            old(self).next.ty != TokenType::EOF && char_at(
                old(self).source@,
                old(self).current_char_i as int,
            ) == '/' && char_at(old(self).source@, old(self).current_char_i + 1) != '/' && char_at(
                old(self).source@,
                old(self).current_char_i + 1,
            ) != '*' ==> final(self).next.ty == TokenType::SLASH && final(self).next.start == old(self).current_char_i && final(self).next.length == 1,
            old(self).next.ty != TokenType::EOF && char_at(
                old(self).source@,
                old(self).current_char_i as int,
            ) == '#' && !(old(self).current_line == 1 && char_at(
                old(self).source@,
                old(self).current_char_i + 1,
            ) == '!') ==> final(self).next.ty == TokenType::HASH && final(self).next.start == old(self).current_char_i && final(self).next.length == 1,
            old(self).next.ty != TokenType::EOF && char_at(
                old(self).source@,
                old(self).current_char_i as int,
            ) == '\n' ==> final(self).next.ty == TokenType::LINE && final(self).next.start == old(self).current_char_i && final(self).next.length == 1 && final(self).next.line == old(self).current_line,
            old(self).next.ty != TokenType::EOF && char_at(
                old(self).source@,
                old(self).current_char_i as int,
            ) == '"' && char_at(old(self).source@, old(self).current_char_i + 1) == '"' && char_at(
                old(self).source@,
                old(self).current_char_i + 2,
            ) == '"' ==> final(self).next.ty == TokenType::STRING && final(self).current_char_i
                == raw_string_scan(old(self).source@, old(self).current_char_i + 3).end && final(self).has_error == (old(self).has_error || raw_string_scan(
                old(self).source@,
                old(self).current_char_i + 3,
            ).err) && (!raw_string_scan(old(self).source@, old(self).current_char_i + 3).err
                ==> value_is_str(
                final(self).next.value,
                raw_trim(raw_string_scan(old(self).source@, old(self).current_char_i + 3).content),
            )),
            old(self).next.ty != TokenType::EOF && char_at(
                old(self).source@,
                old(self).current_char_i as int,
            ) == '"' && !(char_at(old(self).source@, old(self).current_char_i + 1) == '"'
                && char_at(old(self).source@, old(self).current_char_i + 2) == '"') ==> final(self).next.ty == (if string_scan(
                old(self).source@,
                old(self).current_char_i + 1,
                old(self).parens@.len() < MAX_INTERPOLATION_NESTING,
            ).interp {
                TokenType::INTERPOLATION
            } else {
                TokenType::STRING
            }) && final(self).current_char_i == string_scan(
                old(self).source@,
                old(self).current_char_i + 1,
                old(self).parens@.len() < MAX_INTERPOLATION_NESTING,
            ).end && value_is_str(
                final(self).next.value,
                string_scan(
                    old(self).source@,
                    old(self).current_char_i + 1,
                    old(self).parens@.len() < MAX_INTERPOLATION_NESTING,
                ).content,
            ) && final(self).has_error == (old(self).has_error || string_scan(
                old(self).source@,
                old(self).current_char_i + 1,
                old(self).parens@.len() < MAX_INTERPOLATION_NESTING,
            ).err) && final(self).parens@ == (if string_scan(
                old(self).source@,
                old(self).current_char_i + 1,
                old(self).parens@.len() < MAX_INTERPOLATION_NESTING,
            ).interp {
                old(self).parens@.push(1usize)
            } else {
                old(self).parens@
            }),
    {
        let ghost s = self.source@;
        let ghost i0 = self.current_char_i as int;
        self.previous = token_clone(&self.current);
        self.current = token_clone(&self.next);
        // If we are out of tokens, don't try to tokenize any more. We *do*
        // still copy the EOF to previous so that code that expects it to be
        // consumed will still work.
        if self.next.ty == TokenType::EOF {
            return;
        }
        while self.peek_char() != '\0'
            invariant
                self.wf(),
                s == self.source@,
                i0 == old(self).current_char_i as int,
                self.source == old(self).source,
                self.print_errors == old(self).print_errors,
                i0 <= self.current_char_i,
                old(self).next.ty != TokenType::EOF,
                token_like(self.previous, old(self).current),
                token_like(self.current, old(self).next),
                self.parens == old(self).parens,
                self.current_char_i == i0 ==> self.current_line == old(self).current_line
                    && self.has_error == old(self).has_error && self.diagnostics == old(self).diagnostics && self.token_start == old(self).token_start,
                self.current_char_i != i0 ==> (char_at(s, i0) == ' ' || char_at(s, i0) == '\r'
                    || char_at(s, i0) == '\t' || (char_at(s, i0) == '/' && (char_at(s, i0 + 1)
                    == '/' || char_at(s, i0 + 1) == '*')) || (char_at(s, i0) == '#' && old(self).current_line == 1 && char_at(s, i0 + 1) == '!')),
            decreases self.source@.len() - self.current_char_i,
        {
            self.token_start = self.current_char_i;
            let c = self.next_char();
            if c == '(' {
                // An open paren inside an interpolated expression deepens the
                // count the matching ")" must unwind.
                if self.parens.len() > 0 {
                    let ghost parens0 = self.parens@;
                    let v = match self.parens.pop() {
                        Option::Some(x) => x,
                        Option::None => 0,
                    };
                    self.parens.push(v + 1);
                    proof {
                        assert(self.parens@ =~= parens0.update(parens0.len() - 1, (v + 1) as usize));
                    }
                }
                self.make_token(TokenType::LEFT_PAREN);
                return;
            } else if c == ')' {
                // A close paren may end an interpolated expression and resume
                // the string around it.
                if self.parens.len() > 0 {
                    let v = match self.parens.pop() {
                        Option::Some(x) => x,
                        Option::None => 1,
                    };
                    if v == 1 {
                        self.read_string();
                        return;
                    }
                    self.parens.push(v - 1);
                }
                self.make_token(TokenType::RIGHT_PAREN);
                return;
            } else if c == '[' {
                self.make_token(TokenType::LEFT_BRACKET);
                return;
            } else if c == ']' {
                self.make_token(TokenType::RIGHT_BRACKET);
                return;
            } else if c == '{' {
                self.make_token(TokenType::LEFT_BRACE);
                return;
            } else if c == '}' {
                self.make_token(TokenType::RIGHT_BRACE);
                return;
            } else if c == ':' {
                self.make_token(TokenType::COLON);
                return;
            } else if c == ',' {
                self.make_token(TokenType::COMMA);
                return;
            } else if c == '*' {
                self.make_token(TokenType::STAR);
                return;
            } else if c == '%' {
                self.make_token(TokenType::PERCENT);
                return;
            } else if c == '#' {
                // Ignore shebang on the first line.
                if self.current_line == 1 && self.peek_char() == '!' {
                    self.skip_line_comment();
                    continue;
                }
                self.make_token(TokenType::HASH);
                return;
            } else if c == '^' {
                self.make_token(TokenType::CARET);
                return;
            } else if c == '+' {
                self.make_token(TokenType::PLUS);
                return;
            } else if c == '-' {
                self.make_token(TokenType::MINUS);
                return;
            } else if c == '~' {
                self.make_token(TokenType::TILDE);
                return;
            } else if c == '?' {
                self.make_token(TokenType::QUESTION);
                return;
            } else if c == '|' {
                self.two_char_token('|', TokenType::PIPEPIPE, TokenType::PIPE);
                return;
            } else if c == '&' {
                self.two_char_token('&', TokenType::AMPAMP, TokenType::AMP);
                return;
            } else if c == '=' {
                self.two_char_token('=', TokenType::EQEQ, TokenType::EQ);
                return;
            } else if c == '!' {
                self.two_char_token('=', TokenType::BANGEQ, TokenType::BANG);
                return;
            } else if c == '.' {
                if self.match_char('.') {
                    self.two_char_token('.', TokenType::DOTDOTDOT, TokenType::DOTDOT);
                    return;
                }
                self.make_token(TokenType::DOT);
                return;
            } else if c == '/' {
                if self.match_char('/') {
                    self.skip_line_comment();
                    continue;
                }
                if self.match_char('*') {
                    self.skip_block_comment();
                    continue;
                }
                self.make_token(TokenType::SLASH);
                return;
            } else if c == '<' {
                if self.match_char('<') {
                    self.make_token(TokenType::LTLT);
                } else {
                    self.two_char_token('=', TokenType::LTEQ, TokenType::LT);
                }
                return;
            } else if c == '>' {
                if self.match_char('>') {
                    self.make_token(TokenType::GTGT);
                } else {
                    self.two_char_token('=', TokenType::GTEQ, TokenType::GT);
                }
                return;
            } else if c == '\n' {
                self.make_token(TokenType::LINE);
                return;
            } else if c == ' ' || c == '\r' || c == '\t' {
                continue;
            } else if c == '"' {
                if self.peek_char() == '"' && self.peek_next_char() == '"' {
                    self.read_raw_string();
                } else {
                    self.read_string();
                }
                return;
            } else if c == '_' {
                let ty = if self.peek_char() == '_' {
                    TokenType::STATIC_FIELD
                } else {
                    TokenType::FIELD
                };
                self.read_name(ty, c);
                return;
            } else if c == '0' && self.peek_char() == 'x' {
                self.read_hex_number();
                return;
            } else if is_digit(c) {
                self.read_number();
                return;
            } else if is_name(c) {
                self.read_name(TokenType::NAME, c);
                return;
            } else {
                self.lex_error(DiagKind::InvalidCharacter);
                self.next.ty = TokenType::ERROR;
                self.next.start = self.token_start;
                self.next.length = 0;
                self.next.line = self.current_line;
                return;
            }
        }
        self.token_start = self.current_char_i;
        self.make_token(TokenType::EOF);
    }
}

/// Relies on char::from_u32: it yields `Some` exactly on Unicode scalar
/// values — at most 0x10FFFF and not a surrogate — and the returned
/// character's scalar value is the argument itself.
#[verifier::external_body]
fn char_from_u32(v: u32) -> (r: Option<char>)
    ensures
        r is Some <==> (v <= 0x10FFFF && !(0xD800 <= v && v <= 0xDFFF)),
        r matches Some(c) ==> c as u32 == v,
{
    char::from_u32(v)
}

} // verus!
