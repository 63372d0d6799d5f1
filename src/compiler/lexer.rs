use vstd::prelude::*;

use super::error::{ErrorModel, SyntaxError};
use super::text::{digit_char, nat_text};

verus! {

/// A lexical unit of the language.
#[derive(Debug, PartialEq, Eq, Clone)]
pub enum Token {
    // Syntax elements
    OpenBrace,
    CloseBrace,
    OpenParen,
    CloseParen,
    Semicolon,
    // Operators
    Minus,
    Tilde,
    Bang,
    Plus,
    Slash,
    Asterisk,
    DoubleAmpersand,
    DoubleBar,
    DoubleEqual,
    BangEqual,
    LessThan,
    GreaterThan,
    LessThanEqual,
    GreaterThanEqual,
    // Keywords
    IntKw,
    ReturnKw,
    // Identifiers and literals
    Identifier(String),
    IntLiteral(i32),
}

/// A token with the text of an identifier as characters.
pub enum TokenModel {
    OpenBrace,
    CloseBrace,
    OpenParen,
    CloseParen,
    Semicolon,
    Minus,
    Tilde,
    Bang,
    Plus,
    Slash,
    Asterisk,
    DoubleAmpersand,
    DoubleBar,
    DoubleEqual,
    BangEqual,
    LessThan,
    GreaterThan,
    LessThanEqual,
    GreaterThanEqual,
    IntKw,
    ReturnKw,
    Identifier(Seq<char>),
    IntLiteral(i32),
}

impl View for Token {
    type V = TokenModel;

    open spec fn view(&self) -> TokenModel {
        match self {
            Token::OpenBrace => TokenModel::OpenBrace,
            Token::CloseBrace => TokenModel::CloseBrace,
            Token::OpenParen => TokenModel::OpenParen,
            Token::CloseParen => TokenModel::CloseParen,
            Token::Semicolon => TokenModel::Semicolon,
            Token::Minus => TokenModel::Minus,
            Token::Tilde => TokenModel::Tilde,
            Token::Bang => TokenModel::Bang,
            Token::Plus => TokenModel::Plus,
            Token::Slash => TokenModel::Slash,
            Token::Asterisk => TokenModel::Asterisk,
            Token::DoubleAmpersand => TokenModel::DoubleAmpersand,
            Token::DoubleBar => TokenModel::DoubleBar,
            Token::DoubleEqual => TokenModel::DoubleEqual,
            Token::BangEqual => TokenModel::BangEqual,
            Token::LessThan => TokenModel::LessThan,
            Token::GreaterThan => TokenModel::GreaterThan,
            Token::LessThanEqual => TokenModel::LessThanEqual,
            Token::GreaterThanEqual => TokenModel::GreaterThanEqual,
            Token::IntKw => TokenModel::IntKw,
            Token::ReturnKw => TokenModel::ReturnKw,
            Token::Identifier(id) => TokenModel::Identifier(id@),
            Token::IntLiteral(n) => TokenModel::IntLiteral(*n),
        }
    }
}

/// The models of a sequence of tokens.
pub open spec fn tokens_model(ts: Seq<Token>) -> Seq<TokenModel> {
    ts.map_values(|t: Token| t@)
}

// ---------------------------------------------------------------------------
// Character classes
// ---------------------------------------------------------------------------

/// Whether `c`, a character beyond ASCII, is a Unicode word character:
/// alphabetic, a decimal number, a mark, connector punctuation or a join
/// control.
pub uninterp spec fn is_unicode_word_char(c: char) -> bool;

/// Whether `c` is a word character (what `\w` matches in a regular
/// expression); among ASCII characters these are `_`, the digits and the
/// letters.
pub open spec fn is_word_char(c: char) -> bool {
    if (c as u32) < 128 {
        c == '_' || is_dec_digit(c) || is_ascii_letter(c)
    } else {
        is_unicode_word_char(c)
    }
}

/// Whether `c` has the Unicode `White_Space` property.
pub open spec fn is_white_space(c: char) -> bool {
    ('\u{9}' <= c && c <= '\u{d}') || c == ' ' || c == '\u{85}' || c == '\u{a0}' || c
        == '\u{1680}' || ('\u{2000}' <= c && c <= '\u{200a}') || c == '\u{2028}' || c
        == '\u{2029}' || c == '\u{202f}' || c == '\u{205f}' || c == '\u{3000}'
}

/// Relies on `regex_syntax::is_word_character`, which decides the Unicode
/// word class used by `\w` (with its default `unicode-perl` feature it does
/// not panic): an ASCII character is a word character exactly when it is `_`,
/// a digit or a letter, any other by a table lookup.
#[verifier::external_body]
fn word_character(c: char) -> (r: bool)
    ensures
        r == is_word_char(c),
        (c as u32) >= 128 ==> r == is_unicode_word_char(c),
{
    regex_syntax::is_word_character(c)
}

/// Relies on `char::is_whitespace`, which decides the Unicode `White_Space`
/// property.
#[verifier::external_body]
fn white_space(c: char) -> (r: bool)
    ensures
        r == is_white_space(c),
{
    c.is_whitespace()
}

pub open spec fn is_dec_digit(c: char) -> bool {
    '0' <= c && c <= '9'
}

pub open spec fn is_oct_digit(c: char) -> bool {
    '0' <= c && c <= '7'
}

pub open spec fn is_hex_digit(c: char) -> bool {
    is_dec_digit(c) || ('a' <= c && c <= 'f') || ('A' <= c && c <= 'F')
}

pub open spec fn is_ascii_letter(c: char) -> bool {
    ('a' <= c && c <= 'z') || ('A' <= c && c <= 'Z')
}

/// The characters that end an invalid identifier besides whitespace.
pub open spec fn is_bracket(c: char) -> bool {
    c == '(' || c == ')' || c == '{' || c == '}'
}

/// The classes of characters that the scanner consumes in runs.
#[derive(Clone, Copy)]
pub enum CharClass {
    Dec,
    Oct,
    Hex,
    Word,
    /// Anything but whitespace and brackets.
    Unseparated,
}

pub open spec fn in_class(c: char, cls: CharClass) -> bool {
    match cls {
        CharClass::Dec => is_dec_digit(c),
        CharClass::Oct => is_oct_digit(c),
        CharClass::Hex => is_hex_digit(c),
        CharClass::Word => is_word_char(c),
        CharClass::Unseparated => !is_white_space(c) && !is_bracket(c),
    }
}

/// The end of the longest run of characters of class `cls` that starts at `i`.
pub open spec fn run_end(s: Seq<char>, i: int, cls: CharClass) -> int
    decreases s.len() - i,
{
    if 0 <= i < s.len() && in_class(s[i], cls) {
        run_end(s, i + 1, cls)
    } else {
        i
    }
}

// ---------------------------------------------------------------------------
// Symbols
// ---------------------------------------------------------------------------

pub open spec fn two_char_symbol(a: char, b: char) -> Option<TokenModel> {
    if a == '&' && b == '&' {
        Some(TokenModel::DoubleAmpersand)
    } else if a == '|' && b == '|' {
        Some(TokenModel::DoubleBar)
    } else if a == '=' && b == '=' {
        Some(TokenModel::DoubleEqual)
    } else if a == '!' && b == '=' {
        Some(TokenModel::BangEqual)
    } else if a == '>' && b == '=' {
        Some(TokenModel::GreaterThanEqual)
    } else if a == '<' && b == '=' {
        Some(TokenModel::LessThanEqual)
    } else {
        None
    }
}

pub open spec fn one_char_symbol(a: char) -> Option<TokenModel> {
    if a == '>' {
        Some(TokenModel::GreaterThan)
    } else if a == '<' {
        Some(TokenModel::LessThan)
    } else if a == '{' {
        Some(TokenModel::OpenBrace)
    } else if a == '}' {
        Some(TokenModel::CloseBrace)
    } else if a == '(' {
        Some(TokenModel::OpenParen)
    } else if a == ')' {
        Some(TokenModel::CloseParen)
    } else if a == ';' {
        Some(TokenModel::Semicolon)
    } else if a == '-' {
        Some(TokenModel::Minus)
    } else if a == '~' {
        Some(TokenModel::Tilde)
    } else if a == '!' {
        Some(TokenModel::Bang)
    } else if a == '+' {
        Some(TokenModel::Plus)
    } else if a == '/' {
        Some(TokenModel::Slash)
    } else if a == '*' {
        Some(TokenModel::Asterisk)
    } else {
        None
    }
}

/// The symbol that starts with `first` (followed by `second`, if any) and its
/// length; a two-character symbol wins over its one-character prefix.
pub open spec fn symbol_of(first: char, second: Option<char>) -> Option<(TokenModel, nat)> {
    let two = match second {
        Some(b) => two_char_symbol(first, b),
        None => None,
    };
    match two {
        Some(t) => Some((t, 2)),
        None => match one_char_symbol(first) {
            Some(t) => Some((t, 1)),
            None => None,
        },
    }
}

pub open spec fn symbol_at(s: Seq<char>, i: int) -> Option<(TokenModel, nat)> {
    symbol_of(s[i], if i + 1 < s.len() { Some(s[i + 1]) } else { None })
}

// ---------------------------------------------------------------------------
// Integer literals
// ---------------------------------------------------------------------------

pub open spec fn digit_value(c: char) -> nat {
    if is_dec_digit(c) {
        (c as u32 - '0' as u32) as nat
    } else if 'a' <= c && c <= 'f' {
        (c as u32 - 'a' as u32 + 10) as nat
    } else if 'A' <= c && c <= 'F' {
        (c as u32 - 'A' as u32 + 10) as nat
    } else {
        0
    }
}

/// The value of a sequence of digits in the given base.
pub open spec fn digits_value(ds: Seq<char>, base: nat) -> nat
    decreases ds.len(),
{
    if ds.len() == 0 {
        0
    } else {
        digits_value(ds.drop_last(), base) * base + digit_value(ds.last())
    }
}

/// A literal at `i` is hexadecimal: `0x` or `0X` and at least one hex digit.
pub open spec fn hex_at(s: Seq<char>, i: int) -> bool {
    i + 2 < s.len() && s[i] == '0' && (s[i + 1] == 'x' || s[i + 1] == 'X') && is_hex_digit(
        s[i + 2],
    )
}

/// A literal at `i` is octal: `0` and at least one octal digit.
pub open spec fn oct_at(s: Seq<char>, i: int) -> bool {
    i + 1 < s.len() && s[i] == '0' && is_oct_digit(s[i + 1])
}

/// Where the digits of the literal at `i` start.
pub open spec fn literal_digits_start(s: Seq<char>, i: int) -> int {
    if hex_at(s, i) {
        i + 2
    } else if oct_at(s, i) {
        i + 1
    } else {
        i
    }
}

pub open spec fn literal_base(s: Seq<char>, i: int) -> nat {
    if hex_at(s, i) {
        16
    } else if oct_at(s, i) {
        8
    } else {
        10
    }
}

pub open spec fn literal_class(s: Seq<char>, i: int) -> CharClass {
    if hex_at(s, i) {
        CharClass::Hex
    } else if oct_at(s, i) {
        CharClass::Oct
    } else {
        CharClass::Dec
    }
}

/// Where the literal at `i` ends.
pub open spec fn literal_end(s: Seq<char>, i: int) -> int {
    run_end(s, literal_digits_start(s, i), literal_class(s, i))
}

/// The value of the literal at `i`.
pub open spec fn literal_value(s: Seq<char>, i: int) -> nat {
    digits_value(s.subrange(literal_digits_start(s, i), literal_end(s, i)), literal_base(s, i))
}

// ---------------------------------------------------------------------------
// Words
// ---------------------------------------------------------------------------

pub open spec fn keyword_or_identifier(w: Seq<char>) -> TokenModel {
    if w == seq!['i', 'n', 't'] {
        TokenModel::IntKw
    } else if w == seq!['r', 'e', 't', 'u', 'r', 'n'] {
        TokenModel::ReturnKw
    } else {
        TokenModel::Identifier(w)
    }
}

// ---------------------------------------------------------------------------
// The scanner
// ---------------------------------------------------------------------------

/// What the scanner finds at position `i` (`0 <= i < s.len()`): a token, or
/// `None` for whitespace that is skipped, with the number of characters it
/// spans; or the error.
///
/// A symbol is tried first, then a literal, a word and whitespace; these
/// classes are disjoint, so the order between the last three is immaterial.
pub open spec fn lex_step(s: Seq<char>, i: int) -> Result<(Option<TokenModel>, int), ErrorModel> {
    match symbol_at(s, i) {
        Some((t, n)) => Ok((Some(t), n as int)),
        None => if is_dec_digit(s[i]) {
            let end = literal_end(s, i);
            let v = literal_value(s, i);
            if v <= i32::MAX {
                Ok((Some(TokenModel::IntLiteral(v as i32)), end - i))
            } else {
                Err(ErrorModel::InvalidIntLiteral(s.subrange(i, end)))
            }
        } else if is_ascii_letter(s[i]) {
            let end = run_end(s, i + 1, CharClass::Word);
            Ok((Some(keyword_or_identifier(s.subrange(i, end))), end - i))
        } else if is_white_space(s[i]) {
            Ok((None, 1))
        } else {
            Err(ErrorModel::InvalidIdentifier(s.subrange(i, run_end(s, i, CharClass::Unseparated))))
        },
    }
}

/// Put `t` (if any) in front of the tokens of a result.
pub open spec fn prepend(t: Option<TokenModel>, r: Result<Seq<TokenModel>, ErrorModel>) -> Result<
    Seq<TokenModel>,
    ErrorModel,
> {
    match r {
        Ok(ts) => match t {
            Some(t) => Ok(seq![t] + ts),
            None => Ok(ts),
        },
        Err(e) => Err(e),
    }
}

/// The tokens of the suffix of `s` that starts at `i`, or the first error.
pub open spec fn lex_from(s: Seq<char>, i: int) -> Result<Seq<TokenModel>, ErrorModel>
    decreases s.len() - i,
    via lex_from_decreases
{
    if i < 0 || i >= s.len() {
        Ok(seq![])
    } else {
        match lex_step(s, i) {
            Ok((t, n)) => prepend(t, lex_from(s, i + n)),
            Err(e) => Err(e),
        }
    }
}

/// The tokens of `s`, or the first error.
pub open spec fn lex(s: Seq<char>) -> Result<Seq<TokenModel>, ErrorModel> {
    lex_from(s, 0)
}

proof fn lemma_run_end_bounds(s: Seq<char>, i: int, cls: CharClass)
    requires
        0 <= i <= s.len(),
    ensures
        i <= run_end(s, i, cls) <= s.len(),
        forall|k: int| i <= k < run_end(s, i, cls) ==> in_class(#[trigger] s[k], cls),
        run_end(s, i, cls) < s.len() ==> !in_class(s[run_end(s, i, cls)], cls),
    decreases s.len() - i,
{
    if i < s.len() && in_class(s[i], cls) {
        lemma_run_end_bounds(s, i + 1, cls);
    }
}

/// A run that ends where the class stops holding ends at `run_end`.
proof fn lemma_run_end_is(s: Seq<char>, i: int, j: int, cls: CharClass)
    requires
        0 <= i <= j <= s.len(),
        forall|k: int| i <= k < j ==> in_class(#[trigger] s[k], cls),
        j == s.len() || !in_class(s[j], cls),
    ensures
        run_end(s, i, cls) == j,
    decreases j - i,
{
    if i < j {
        lemma_run_end_is(s, i + 1, j, cls);
    }
}

proof fn lemma_lex_step_advances(s: Seq<char>, i: int)
    requires
        0 <= i < s.len(),
    ensures
        lex_step(s, i) matches Ok((_, n)) ==> 1 <= n && i + n <= s.len(),
{
    if symbol_at(s, i) is None {
        if is_dec_digit(s[i]) {
            let start = literal_digits_start(s, i);
            lemma_run_end_bounds(s, start, literal_class(s, i));
            lemma_run_end_bounds(s, i, CharClass::Dec);
            if !hex_at(s, i) && !oct_at(s, i) {
                assert(in_class(s[i], CharClass::Dec));
            } else if hex_at(s, i) {
                assert(in_class(s[i + 2], CharClass::Hex));
            } else {
                assert(in_class(s[i + 1], CharClass::Oct));
            }
        } else if is_ascii_letter(s[i]) {
            lemma_run_end_bounds(s, i + 1, CharClass::Word);
        }
    }
}

#[via_fn]
proof fn lex_from_decreases(s: Seq<char>, i: int) {
    if 0 <= i < s.len() {
        lemma_lex_step_advances(s, i);
    }
}

// ---------------------------------------------------------------------------
// Executable scanner
// ---------------------------------------------------------------------------

/// Put `prefix` in front of the tokens of a result.
pub open spec fn prepend_all(prefix: Seq<TokenModel>, r: Result<Seq<TokenModel>, ErrorModel>) -> Result<
    Seq<TokenModel>,
    ErrorModel,
> {
    match r {
        Ok(ts) => Ok(prefix + ts),
        Err(e) => Err(e),
    }
}

/// The characters of `s`, in order.
fn chars_of(s: &str) -> (r: Vec<char>)
    ensures
        r@ == s@,
{
    let mut v: Vec<char> = Vec::new();
    for c in it: s.chars()
        invariant
            v@ == it.seq().take(it.index() as int),
    {
        v.push(c);
    }
    v
}

fn char_in_class(c: char, cls: CharClass) -> (r: bool)
    ensures
        r == in_class(c, cls),
{
    match cls {
        CharClass::Dec => '0' <= c && c <= '9',
        CharClass::Oct => '0' <= c && c <= '7',
        CharClass::Hex => ('0' <= c && c <= '9') || ('a' <= c && c <= 'f') || ('A' <= c && c
            <= 'F'),
        CharClass::Word => word_character(c),
        CharClass::Unseparated => !white_space(c) && !(c == '(' || c == ')' || c == '{' || c
            == '}'),
    }
}

/// The end of the longest run of characters of class `cls` from `i` on.
fn scan_run(chars: &Vec<char>, i: usize, cls: CharClass) -> (r: usize)
    requires
        i <= chars.len(),
    ensures
        r == run_end(chars@, i as int, cls),
        i <= r <= chars.len(),
{
    let mut j: usize = i;
    while j < chars.len() && char_in_class(chars[j], cls)
        invariant
            i <= j <= chars.len(),
            forall|k: int| i <= k < j ==> in_class(#[trigger] chars@[k], cls),
        decreases chars.len() - j,
    {
        j += 1;
    }
    proof {
        lemma_run_end_is(chars@, i as int, j as int, cls);
    }
    j
}

/// The symbol that starts with `first`, followed by `second` if there is a
/// next character, with its length.
fn symbols_to_token(first: char, second: Option<char>) -> (r: Option<(Token, usize)>)
    ensures
        r is Some <==> symbol_of(first, second) is Some,
        r matches Some((t, n)) ==> symbol_of(first, second) == Some((t@, n as nat)),
{
    let two = match second {
        Some(b) => if first == '&' && b == '&' {
            Some(Token::DoubleAmpersand)
        } else if first == '|' && b == '|' {
            Some(Token::DoubleBar)
        } else if first == '=' && b == '=' {
            Some(Token::DoubleEqual)
        } else if first == '!' && b == '=' {
            Some(Token::BangEqual)
        } else if first == '>' && b == '=' {
            Some(Token::GreaterThanEqual)
        } else if first == '<' && b == '=' {
            Some(Token::LessThanEqual)
        } else {
            None
        },
        None => None,
    };
    match two {
        Some(t) => {
            return Some((t, 2));
        },
        None => {},
    }
    let one = if first == '>' {
        Some(Token::GreaterThan)
    } else if first == '<' {
        Some(Token::LessThan)
    } else if first == '{' {
        Some(Token::OpenBrace)
    } else if first == '}' {
        Some(Token::CloseBrace)
    } else if first == '(' {
        Some(Token::OpenParen)
    } else if first == ')' {
        Some(Token::CloseParen)
    } else if first == ';' {
        Some(Token::Semicolon)
    } else if first == '-' {
        Some(Token::Minus)
    } else if first == '~' {
        Some(Token::Tilde)
    } else if first == '!' {
        Some(Token::Bang)
    } else if first == '+' {
        Some(Token::Plus)
    } else if first == '/' {
        Some(Token::Slash)
    } else if first == '*' {
        Some(Token::Asterisk)
    } else {
        None
    };
    match one {
        Some(t) => Some((t, 1)),
        None => None,
    }
}

/// The symbol at position `i`, longest match first, with its length.
fn tokenize_symbol(chars: &Vec<char>, i: usize) -> (r: Option<(Token, usize)>)
    requires
        i < chars.len(),
    ensures
        r is Some <==> symbol_at(chars@, i as int) is Some,
        r matches Some((t, n)) ==> symbol_at(chars@, i as int) == Some((t@, n as nat)),
{
    let second = if i + 1 < chars.len() {
        Some(chars[i + 1])
    } else {
        None
    };
    symbols_to_token(chars[i], second)
}

fn digit_of(c: char) -> (r: u64)
    ensures
        r == digit_value(c),
        r <= 15,
{
    if '0' <= c && c <= '9' {
        (c as u32 - '0' as u32) as u64
    } else if 'a' <= c && c <= 'f' {
        (c as u32 - 'a' as u32 + 10) as u64
    } else if 'A' <= c && c <= 'F' {
        (c as u32 - 'A' as u32 + 10) as u64
    } else {
        0
    }
}

proof fn lemma_digits_value_prefix(ds: Seq<char>, base: nat, n: int)
    requires
        base >= 1,
        0 <= n <= ds.len(),
    ensures
        digits_value(ds.take(n), base) <= digits_value(ds, base),
    decreases ds.len(),
{
    if n < ds.len() {
        let front = ds.drop_last();
        lemma_digits_value_prefix(front, base, n);
        assert(front.take(n) =~= ds.take(n));
        let v = digits_value(front, base);
        assert(v <= v * base) by (nonlinear_arith)
            requires
                base >= 1,
        ;
    } else {
        assert(ds.take(n) =~= ds);
    }
}

/// The value of the digits `chars[start..end]` in `base`, if it fits in an
/// `i32`.
fn digits_to_i32(chars: &Vec<char>, start: usize, end: usize, base: u64) -> (r: Option<i32>)
    requires
        start <= end <= chars.len(),
        2 <= base <= 16,
    ensures
        r is Some <==> digits_value(chars@.subrange(start as int, end as int), base as nat)
            <= i32::MAX,
        r matches Some(v) ==> v == digits_value(
            chars@.subrange(start as int, end as int),
            base as nat,
        ),
{
    let ghost ds = chars@.subrange(start as int, end as int);
    let mut acc: u64 = 0;
    let mut k: usize = start;
    while k < end
        invariant
            start <= k <= end <= chars.len(),
            2 <= base <= 16,
            ds == chars@.subrange(start as int, end as int),
            acc == digits_value(chars@.subrange(start as int, k as int), base as nat),
            acc <= i32::MAX,
        decreases end - k,
    {
        assert(acc * base <= 2147483647 * 16) by (nonlinear_arith)
            requires
                acc <= 2147483647,
                base <= 16,
        ;
        let next = acc * base + digit_of(chars[k]);
        assert(chars@.subrange(start as int, k + 1).drop_last() =~= chars@.subrange(
            start as int,
            k as int,
        ));
        if next > i32::MAX as u64 {
            proof {
                assert(ds.take(k + 1 - start) =~= chars@.subrange(start as int, k + 1));
                lemma_digits_value_prefix(ds, base as nat, k + 1 - start);
            }
            return None;
        }
        acc = next;
        k += 1;
    }
    Some(acc as i32)
}

/// The integer literal at `i`, or the error for one out of range.
fn tokenize_int_literal(input: &str, chars: &Vec<char>, i: usize) -> (r: Result<
    (Token, usize),
    SyntaxError,
>)
    requires
        chars@ == input@,
        i < chars.len(),
        is_dec_digit(chars@[i as int]),
    ensures
        r is Ok <==> literal_value(chars@, i as int) <= i32::MAX,
        r matches Ok((t, n)) ==> t@ == TokenModel::IntLiteral(literal_value(chars@, i as int) as i32)
            && n == literal_end(chars@, i as int) - i,
        r matches Err(e) ==> e@ == ErrorModel::InvalidIntLiteral(
            chars@.subrange(i as int, literal_end(chars@, i as int)),
        ),
{
    let hex = chars.len() - i > 2 && chars[i] == '0' && (chars[i + 1] == 'x' || chars[i + 1]
        == 'X') && char_in_class(chars[i + 2], CharClass::Hex);
    let oct = chars.len() - i > 1 && chars[i] == '0' && char_in_class(
        chars[i + 1],
        CharClass::Oct,
    );
    let (start, base, cls) = if hex {
        (i + 2, 16u64, CharClass::Hex)
    } else if oct {
        (i + 1, 8u64, CharClass::Oct)
    } else {
        (i, 10u64, CharClass::Dec)
    };
    let end = scan_run(chars, start, cls);
    match digits_to_i32(chars, start, end, base) {
        Some(v) => Ok((Token::IntLiteral(v), end - i)),
        None => Err(SyntaxError::InvalidIntLiteral(String::from_str(input.substring_char(i, end)))),
    }
}

/// The keyword or identifier that starts with the letter at `i`.
fn get_keyword_or_id(input: &str, chars: &Vec<char>, i: usize) -> (r: (Token, usize))
    requires
        chars@ == input@,
        i < chars.len(),
        is_ascii_letter(chars@[i as int]),
    ensures
        r.0@ == keyword_or_identifier(
            chars@.subrange(i as int, run_end(chars@, i + 1, CharClass::Word)),
        ),
        r.1 == run_end(chars@, i + 1, CharClass::Word) - i,
{
    let end = scan_run(chars, i + 1, CharClass::Word);
    let ghost w = chars@.subrange(i as int, end as int);
    if end - i == 3 && chars[i] == 'i' && chars[i + 1] == 'n' && chars[i + 2] == 't' {
        assert(w =~= seq!['i', 'n', 't']);
        assert(keyword_or_identifier(w) == TokenModel::IntKw);
        (Token::IntKw, end - i)
    } else if end - i == 6 && chars[i] == 'r' && chars[i + 1] == 'e' && chars[i + 2] == 't'
        && chars[i + 3] == 'u' && chars[i + 4] == 'r' && chars[i + 5] == 'n' {
        assert(w =~= seq!['r', 'e', 't', 'u', 'r', 'n']);
        assert(keyword_or_identifier(w) == TokenModel::ReturnKw);
        (Token::ReturnKw, end - i)
    } else {
        proof {
            assert(w.len() == end - i);
            assert(forall|k: int| 0 <= k < w.len() ==> #[trigger] w[k] == chars@[i + k]);
            let kw_int = seq!['i', 'n', 't'];
            let kw_return = seq!['r', 'e', 't', 'u', 'r', 'n'];
            if w == kw_int {
                assert(w[0] == kw_int[0] && w[1] == kw_int[1] && w[2] == kw_int[2]);
            }
            if w == kw_return {
                assert(w[0] == kw_return[0] && w[1] == kw_return[1] && w[2] == kw_return[2]
                    && w[3] == kw_return[3] && w[4] == kw_return[4] && w[5] == kw_return[5]);
            }
        }
        assert(keyword_or_identifier(w) == TokenModel::Identifier(w));
        let id = String::from_str(input.substring_char(i, end));
        assert(id@ == w);
        (Token::Identifier(id), end - i)
    }
}

/// The integer literal or the word that starts at `i`.
fn tokenize_const_or_id(input: &str, chars: &Vec<char>, i: usize) -> (r: Result<
    (Token, usize),
    SyntaxError,
>)
    requires
        chars@ == input@,
        i < chars.len(),
        symbol_at(chars@, i as int) is None,
        is_dec_digit(chars@[i as int]) || is_ascii_letter(chars@[i as int]),
    ensures
        match r {
            Ok((t, n)) => lex_step(chars@, i as int) == Ok::<_, ErrorModel>((Some(t@), n as int)),
            Err(e) => lex_step(chars@, i as int) == Err::<(Option<TokenModel>, int), _>(e@),
        },
{
    if '0' <= chars[i] && chars[i] <= '9' {
        tokenize_int_literal(input, chars, i)
    } else {
        Ok(get_keyword_or_id(input, chars, i))
    }
}

/// The token or whitespace at `i` and the number of characters it spans, or
/// the error.
fn scan_token(input: &str, chars: &Vec<char>, i: usize) -> (r: Result<
    (Option<Token>, usize),
    SyntaxError,
>)
    requires
        chars@ == input@,
        i < chars.len(),
    ensures
        match r {
            Ok((t, n)) => lex_step(chars@, i as int) == Ok::<_, ErrorModel>(
                (
                    match t {
                        Some(t) => Some(t@),
                        None => None,
                    },
                    n as int,
                ),
            ),
            Err(e) => lex_step(chars@, i as int) == Err::<(Option<TokenModel>, int), _>(e@),
        },
{
    match tokenize_symbol(chars, i) {
        Some((t, n)) => {
            return Ok((Some(t), n));
        },
        None => {},
    }
    let c = chars[i];
    if ('0' <= c && c <= '9') || ('a' <= c && c <= 'z') || ('A' <= c && c <= 'Z') {
        match tokenize_const_or_id(input, chars, i) {
            Ok((t, n)) => Ok((Some(t), n)),
            Err(e) => Err(e),
        }
    } else if white_space(c) {
        Ok((None, 1))
    } else {
        let end = scan_run(chars, i, CharClass::Unseparated);
        Err(SyntaxError::InvalidIdentifier(String::from_str(input.substring_char(i, end))))
    }
}

/// The tokens of `input`, in order, or the first lexical error.
pub fn tokenize(input: &str) -> (r: Result<Vec<Token>, SyntaxError>)
    ensures
        match r {
            Ok(ts) => lex(input@) == Ok::<_, ErrorModel>(tokens_model(ts@)),
            Err(e) => lex(input@) == Err::<Seq<TokenModel>, _>(e@),
        },
{
    let chars = chars_of(input);
    let mut tokens: Vec<Token> = Vec::new();
    let mut i: usize = 0;
    proof {
        assert(prepend_all(tokens_model(tokens@), lex_from(chars@, 0)) == lex(input@)) by {
            assert(tokens_model(tokens@) =~= seq![]);
            match lex_from(chars@, 0) {
                Ok(ts) => {
                    assert(seq![] + ts =~= ts);
                },
                Err(_) => {},
            }
        }
    }
    while i < chars.len()
        invariant
            chars@ == input@,
            i <= chars.len(),
            prepend_all(tokens_model(tokens@), lex_from(chars@, i as int)) == lex(input@),
        decreases chars.len() - i,
    {
        proof {
            lemma_lex_step_advances(chars@, i as int);
        }
        match scan_token(input, &chars, i) {
            Ok((t, n)) => {
                let ghost before = tokens_model(tokens@);
                let ghost rest = lex_from(chars@, i + n);
                match t {
                    Some(t) => {
                        let ghost tm = t@;
                        tokens.push(t);
                        proof {
                            assert(tokens_model(tokens@) =~= before.push(tm));
                            match rest {
                                Ok(ts) => {
                                    assert(before + (seq![tm] + ts) =~= before.push(tm) + ts);
                                },
                                Err(_) => {},
                            }
                        }
                    },
                    None => {},
                }
                i += n;
            },
            Err(e) => {
                return Err(e);
            },
        }
    }
    proof {
        match lex_from(chars@, i as int) {
            Ok(ts) => {
                assert(tokens_model(tokens@) + seq![] =~= tokens_model(tokens@));
            },
            Err(_) => {},
        }
    }
    Ok(tokens)
}

// ---------------------------------------------------------------------------
// Laws of integer literals
// ---------------------------------------------------------------------------

/// The literal that spans the whole of `s`, from its digits at `start` on.
proof fn lemma_whole_literal(s: Seq<char>, start: int, cls: CharClass)
    requires
        0 <= start < s.len(),
        forall|k: int| start <= k < s.len() ==> in_class(#[trigger] s[k], cls),
        literal_digits_start(s, 0) == start,
        literal_class(s, 0) == cls,
        is_dec_digit(s[0]),
    ensures
        literal_end(s, 0) == s.len(),
        literal_value(s, 0) <= i32::MAX ==> lex(s) == Ok::<_, ErrorModel>(
            seq![TokenModel::IntLiteral(literal_value(s, 0) as i32)],
        ),
        literal_value(s, 0) > i32::MAX ==> lex(s) == Err::<Seq<TokenModel>, _>(
            ErrorModel::InvalidIntLiteral(s),
        ),
{
    lemma_run_end_is(s, start, s.len() as int, cls);
    assert(symbol_at(s, 0) is None);
    assert(s.subrange(0, s.len() as int) =~= s);
    assert(lex_from(s, s.len() as int) == Ok::<_, ErrorModel>(Seq::<TokenModel>::empty()));
    let t = TokenModel::IntLiteral(literal_value(s, 0) as i32);
    assert(seq![t] + Seq::<TokenModel>::empty() =~= seq![t]);
}

/// A run of decimal digits is one integer literal of its decimal value, or,
/// where the value is beyond `i32::MAX`, the error for it; unless it starts
/// with `0` followed by an octal digit, which makes it octal.
pub proof fn lemma_decimal_literal(s: Seq<char>)
    requires
        s.len() > 0,
        forall|k: int| 0 <= k < s.len() ==> is_dec_digit(#[trigger] s[k]),
        !oct_at(s, 0),
    ensures
        digits_value(s, 10) <= i32::MAX ==> lex(s) == Ok::<_, ErrorModel>(
            seq![TokenModel::IntLiteral(digits_value(s, 10) as i32)],
        ),
        digits_value(s, 10) > i32::MAX ==> lex(s) == Err::<Seq<TokenModel>, _>(
            ErrorModel::InvalidIntLiteral(s),
        ),
{
    assert(!hex_at(s, 0));
    assert forall|k: int| 0 <= k < s.len() implies in_class(#[trigger] s[k], CharClass::Dec) by {
        assert(is_dec_digit(s[k]));
    }
    lemma_whole_literal(s, 0, CharClass::Dec);
    assert(s.subrange(0, s.len() as int) =~= s);
}

/// `0x` or `0X` followed by hex digits is one integer literal of their
/// base-16 value, or, beyond `i32::MAX`, the error for it.
pub proof fn lemma_hex_literal(x: char, ds: Seq<char>)
    requires
        x == 'x' || x == 'X',
        ds.len() > 0,
        forall|k: int| 0 <= k < ds.len() ==> is_hex_digit(#[trigger] ds[k]),
    ensures
        digits_value(ds, 16) <= i32::MAX ==> lex(seq!['0', x] + ds) == Ok::<_, ErrorModel>(
            seq![TokenModel::IntLiteral(digits_value(ds, 16) as i32)],
        ),
        digits_value(ds, 16) > i32::MAX ==> lex(seq!['0', x] + ds) == Err::<Seq<TokenModel>, _>(
            ErrorModel::InvalidIntLiteral(seq!['0', x] + ds),
        ),
{
    let s = seq!['0', x] + ds;
    assert(s[2] == ds[0]);
    assert(hex_at(s, 0));
    assert forall|k: int| 2 <= k < s.len() implies in_class(#[trigger] s[k], CharClass::Hex) by {
        assert(s[k] == ds[k - 2]);
    }
    lemma_whole_literal(s, 2, CharClass::Hex);
    assert(s.subrange(2, s.len() as int) =~= ds);
}

/// `0` followed by octal digits is one integer literal of their base-8
/// value, or, beyond `i32::MAX`, the error for it.
pub proof fn lemma_octal_literal(ds: Seq<char>)
    requires
        ds.len() > 0,
        forall|k: int| 0 <= k < ds.len() ==> is_oct_digit(#[trigger] ds[k]),
    ensures
        digits_value(ds, 8) <= i32::MAX ==> lex(seq!['0'] + ds) == Ok::<_, ErrorModel>(
            seq![TokenModel::IntLiteral(digits_value(ds, 8) as i32)],
        ),
        digits_value(ds, 8) > i32::MAX ==> lex(seq!['0'] + ds) == Err::<Seq<TokenModel>, _>(
            ErrorModel::InvalidIntLiteral(seq!['0'] + ds),
        ),
{
    let s = seq!['0'] + ds;
    assert(s[1] == ds[0]);
    assert(!hex_at(s, 0));
    assert(oct_at(s, 0));
    assert forall|k: int| 1 <= k < s.len() implies in_class(#[trigger] s[k], CharClass::Oct) by {
        assert(s[k] == ds[k - 1]);
    }
    lemma_whole_literal(s, 1, CharClass::Oct);
    assert(s.subrange(1, s.len() as int) =~= ds);
}

// ---------------------------------------------------------------------------
// Writing tokens as source text, and lexing it back
// ---------------------------------------------------------------------------

/// The source text of a token; a literal is written in decimal.
pub open spec fn token_text(t: TokenModel) -> Seq<char> {
    match t {
        TokenModel::OpenBrace => seq!['{'],
        TokenModel::CloseBrace => seq!['}'],
        TokenModel::OpenParen => seq!['('],
        TokenModel::CloseParen => seq![')'],
        TokenModel::Semicolon => seq![';'],
        TokenModel::Minus => seq!['-'],
        TokenModel::Tilde => seq!['~'],
        TokenModel::Bang => seq!['!'],
        TokenModel::Plus => seq!['+'],
        TokenModel::Slash => seq!['/'],
        TokenModel::Asterisk => seq!['*'],
        TokenModel::DoubleAmpersand => seq!['&', '&'],
        TokenModel::DoubleBar => seq!['|', '|'],
        TokenModel::DoubleEqual => seq!['=', '='],
        TokenModel::BangEqual => seq!['!', '='],
        TokenModel::LessThan => seq!['<'],
        TokenModel::GreaterThan => seq!['>'],
        TokenModel::LessThanEqual => seq!['<', '='],
        TokenModel::GreaterThanEqual => seq!['>', '='],
        TokenModel::IntKw => seq!['i', 'n', 't'],
        TokenModel::ReturnKw => seq!['r', 'e', 't', 'u', 'r', 'n'],
        TokenModel::Identifier(w) => w,
        TokenModel::IntLiteral(n) => nat_text(n as nat),
    }
}

/// A name that lexes as an identifier: a letter, then word characters, and
/// not a keyword.
pub open spec fn is_identifier_text(w: Seq<char>) -> bool {
    &&& w.len() > 0
    &&& is_ascii_letter(w[0])
    &&& forall|i: int| 1 <= i < w.len() ==> is_word_char(#[trigger] w[i])
    &&& w != seq!['i', 'n', 't']
    &&& w != seq!['r', 'e', 't', 'u', 'r', 'n']
}

/// A token that source text can hold: identifiers as above, literals not
/// negative (a minus sign is a token of its own).
pub open spec fn is_writable(t: TokenModel) -> bool {
    match t {
        TokenModel::Identifier(w) => is_identifier_text(w),
        TokenModel::IntLiteral(n) => n >= 0,
        _ => true,
    }
}

/// The tokens written out in order, each followed by a space.
pub open spec fn spaced_text(ts: Seq<TokenModel>) -> Seq<char>
    decreases ts.len(),
{
    if ts.len() == 0 {
        seq![]
    } else {
        token_text(ts[0]) + seq![' '] + spaced_text(ts.drop_first())
    }
}

proof fn lemma_nat_text(n: nat)
    ensures
        nat_text(n).len() >= 1,
        forall|i: int| 0 <= i < nat_text(n).len() ==> is_dec_digit(#[trigger] nat_text(n)[i]),
        digits_value(nat_text(n), 10) == n,
        n >= 10 ==> nat_text(n)[0] != '0',
    decreases n,
{
    let d = n % 10;
    assert(is_dec_digit(digit_char(d)) && digit_value(digit_char(d)) == d);
    if n >= 10 {
        lemma_nat_text(n / 10);
        let front = nat_text(n / 10);
        assert(nat_text(n).drop_last() =~= front);
        assert(nat_text(n)[0] == front[0]);
        if n / 10 < 10 {
            assert(n / 10 >= 1);
            assert(digit_value(digit_char((n / 10) as nat)) == n / 10);
        }
        assert((n / 10) * 10 + n % 10 == n);
    } else {
        assert(digits_value(seq![digit_char(n)].drop_last(), 10) == 0) by {
            assert(seq![digit_char(n)].drop_last() =~= Seq::<char>::empty());
        }
    }
}

/// `s` holds the text of `t` at `p`, then a space.
pub open spec fn text_at(s: Seq<char>, p: int, t: TokenModel) -> bool {
    &&& 0 <= p
    &&& p + token_text(t).len() < s.len()
    &&& forall|i: int| 0 <= i < token_text(t).len() ==> s[p + i] == #[trigger] token_text(t)[i]
    &&& s[p + token_text(t).len()] == ' '
}

/// A word of letters and word characters at `p`, followed by a space, ends
/// there.
proof fn lemma_word_at(s: Seq<char>, p: int, w: Seq<char>)
    requires
        0 <= p,
        w.len() > 0,
        p + w.len() < s.len(),
        forall|i: int| 0 <= i < w.len() ==> s[p + i] == #[trigger] w[i],
        forall|i: int| 1 <= i < w.len() ==> is_word_char(#[trigger] w[i]),
        s[p + w.len()] == ' ',
    ensures
        run_end(s, p + 1, CharClass::Word) == p + w.len(),
        s.subrange(p, p + w.len()) == w,
{
    assert forall|k: int| p + 1 <= k < p + w.len() implies in_class(
        #[trigger] s[k],
        CharClass::Word,
    ) by {
        assert(s[p + (k - p)] == w[k - p]);
    }
    lemma_run_end_is(s, p + 1, p + w.len(), CharClass::Word);
    assert(s.subrange(p, p + w.len()) =~= w);
}

proof fn lemma_lex_token(s: Seq<char>, p: int, t: TokenModel)
    requires
        is_writable(t),
        text_at(s, p, t),
    ensures
        lex_step(s, p) == Ok::<_, ErrorModel>((Some(t), token_text(t).len() as int)),
{
    let w = token_text(t);
    assert(s[p + 0] == w[0]);
    match t {
        TokenModel::IntLiteral(n) => {
            lemma_nat_text(n as nat);
            let end = p + w.len();
            assert(is_dec_digit(s[p + 0]));
            if w.len() >= 2 {
                assert(s[p + 1] == w[1]);
                assert(n >= 10);
            }
            assert(!hex_at(s, p));
            assert(!oct_at(s, p));
            assert forall|k: int| p <= k < end implies in_class(#[trigger] s[k], CharClass::Dec) by {
                assert(s[p + (k - p)] == w[k - p]);
            }
            lemma_run_end_is(s, p, end, CharClass::Dec);
            assert(s.subrange(p, end) =~= w);
        },
        TokenModel::Identifier(name) => {
            lemma_word_at(s, p, name);
        },
        TokenModel::IntKw => {
            assert(s[p + 1] == w[1] && s[p + 2] == w[2]);
            lemma_word_at(s, p, w);
        },
        TokenModel::ReturnKw => {
            assert(s[p + 1] == w[1] && s[p + 2] == w[2] && s[p + 3] == w[3] && s[p + 4] == w[4]
                && s[p + 5] == w[5]);
            lemma_word_at(s, p, w);
        },
        _ => {
            if w.len() == 2 {
                assert(s[p + 1] == w[1]);
            }
        },
    }
}

/// Tokens written out with a space after each lex back to themselves.
proof fn lemma_lex_spaced(s: Seq<char>, p: int, ts: Seq<TokenModel>)
    requires
        0 <= p,
        p + spaced_text(ts).len() == s.len(),
        forall|i: int| 0 <= i < spaced_text(ts).len() ==> s[p + i] == #[trigger] spaced_text(ts)[i],
        forall|i: int| 0 <= i < ts.len() ==> is_writable(#[trigger] ts[i]),
    ensures
        lex_from(s, p) == Ok::<_, ErrorModel>(ts),
    decreases ts.len(),
{
    if ts.len() == 0 {
        assert(p == s.len());
        assert(ts =~= Seq::<TokenModel>::empty());
    } else {
        let t = ts[0];
        let w = token_text(t);
        let rest = ts.drop_first();
        let whole = spaced_text(ts);
        assert(whole == w + seq![' '] + spaced_text(rest));
        assert forall|i: int| 0 <= i < w.len() implies s[p + i] == #[trigger] w[i] by {
            assert(whole[i] == w[i]);
        }
        assert(whole[w.len() as int] == ' ');
        assert(is_writable(ts[0]));
        lemma_lex_token(s, p, t);
        let q = p + w.len();
        assert(lex_step(s, q) == Ok::<_, ErrorModel>((None::<TokenModel>, 1int)));
        assert forall|i: int| 0 <= i < spaced_text(rest).len() implies s[q + 1 + i]
            == #[trigger] spaced_text(rest)[i] by {
            assert(whole[w.len() + 1 + i] == spaced_text(rest)[i]);
        }
        assert forall|i: int| 0 <= i < rest.len() implies is_writable(#[trigger] rest[i]) by {
            assert(rest[i] == ts[i + 1]);
        }
        lemma_lex_spaced(s, q + 1, rest);
        assert(p < q < s.len());
        assert(lex_from(s, q) == prepend(None, lex_from(s, q + 1)));
        assert(lex_from(s, p) == prepend(Some(t), lex_from(s, q)));
        assert(seq![t] + rest =~= ts);
    }
}

/// The source text made of writable tokens, each followed by a space, lexes
/// to those tokens.
pub proof fn lemma_lex_spaced_text(ts: Seq<TokenModel>)
    requires
        forall|i: int| 0 <= i < ts.len() ==> is_writable(#[trigger] ts[i]),
    ensures
        lex(spaced_text(ts)) == Ok::<_, ErrorModel>(ts),
{
    let s = spaced_text(ts);
    assert forall|i: int| 0 <= i < s.len() implies s[0 + i] == #[trigger] s[i] by {}
    lemma_lex_spaced(s, 0, ts);
}

} // verus!
