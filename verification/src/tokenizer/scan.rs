//! The scanner: the functions that compute the token sequence of a source
//! text, each proved against the lexical rules.
use super::rules::SpecError;
use super::rules::blank_end;
use super::rules::block_end;
use super::rules::block_end_bytes;
use super::rules::byte_range;
use super::rules::decimal;
use super::rules::digit_bytes;
use super::rules::digits_end;
use super::rules::is_digit;
use super::rules::is_letter;
use super::rules::is_space;
use super::rules::is_word_byte;
use super::rules::letter_bytes;
use super::rules::lex;
use super::rules::lex_from;
use super::rules::line_end;
use super::rules::pair_at;
use super::rules::spaces_end;
use super::rules::symbol_at;
use super::rules::token_at;
use super::rules::token_bytes;
use super::rules::word_end;
use super::rules::word_token;
use super::rules::{
    AMPERSAND, BANG, BAR, CARRIAGE_RETURN, DIGIT_0, DIGIT_9, EQUALS, GREATER_THAN, LEFT_BRACE,
    LEFT_PAREN, LESS_THAN, LINE_FEED, LOWER_A, LOWER_E, LOWER_F, LOWER_I, LOWER_W, LOWER_Z, MINUS,
    PLUS, RIGHT_BRACE, RIGHT_PAREN, SEMICOLON, SLASH, STAR, UNDERSCORE, UPPER_A, UPPER_Z,
};
use super::token::SpecToken;
use super::token::Token;
use crate::text::text;
use crate::text::text_of;
use vstd::prelude::*;
use vstd::slice::slice_subrange;

verus! {

/// Why a source text has no token sequence.
#[derive(Clone, Debug, PartialEq, Eq)]
pub enum Error {
    /// At the given position none of the listed bytes was found, and one of
    /// them was needed to go on.
    Expected(Vec<u8>, usize),
    /// The integer literal that starts at the given position is too large
    /// for a signed machine integer.
    Overflow(usize),
}

impl View for Error {
    type V = SpecError;

    open spec fn view(&self) -> SpecError {
        match self {
            Error::Expected(bytes, at) => SpecError::Expected(bytes@, *at as int),
            Error::Overflow(at) => SpecError::Overflow(*at as int),
        }
    }
}

/// Whether a scanning result is the one the rules give: the same end
/// position, or the same error.
pub open spec fn end_matches(r: Result<usize, Error>, rule: Result<int, SpecError>) -> bool {
    match rule {
        Ok(e) => r matches Ok(end) && end == e,
        Err(e) => r matches Err(err) && err@ == e,
    }
}

/// Whether the rest that a scanning function hands back is the input from
/// the rule's end position on, or its error the rule's error.
pub open spec fn rest_matches(r: Result<&[u8], Error>, src: &[u8], rule: Result<int, SpecError>) -> bool {
    match rule {
        Ok(e) => r matches Ok(rest) && rest@ == src@.skip(e),
        Err(e) => r matches Err(err) && err@ == e,
    }
}

fn byte_is_space(b: u8) -> (r: bool)
    ensures
        r == is_space(b),
{
    (9 <= b && b <= 13) || b == 32 || b == 0x85 || b == 0xa0
}

fn byte_is_digit(b: u8) -> (r: bool)
    ensures
        r == is_digit(b),
{
    DIGIT_0 <= b && b <= DIGIT_9
}

fn byte_is_letter(b: u8) -> (r: bool)
    ensures
        r == is_letter(b),
{
    (LOWER_A <= b && b <= LOWER_Z) || (UPPER_A <= b && b <= UPPER_Z)
}

fn byte_is_word(b: u8) -> (r: bool)
    ensures
        r == is_word_byte(b),
{
    byte_is_letter(b) || byte_is_digit(b) || b == UNDERSCORE
}

/// Appends the bytes `lo ..= hi` to `out`.
fn push_range(out: &mut Vec<u8>, lo: u8, hi: u8)
    requires
        lo <= hi,
    ensures
        final(out)@ == old(out)@ + byte_range(lo, hi),
{
    let mut b: u8 = lo;
    out.push(b);
    assert(out@ =~= old(out)@ + byte_range(lo, lo));
    while b < hi
        invariant
            lo <= b <= hi,
            out@ == old(out)@ + byte_range(lo, b),
        decreases hi - b,
    {
        b += 1;
        out.push(b);
        assert(out@ =~= old(out)@ + byte_range(lo, b));
    }
}

fn expected_digit(at: usize) -> (e: Error)
    ensures
        e@ == SpecError::Expected(digit_bytes(), at as int),
{
    let mut bytes: Vec<u8> = Vec::new();
    push_range(&mut bytes, DIGIT_0, DIGIT_9);
    assert(bytes@ =~= digit_bytes());
    Error::Expected(bytes, at)
}

fn expected_letter(at: usize) -> (e: Error)
    ensures
        e@ == SpecError::Expected(letter_bytes(), at as int),
{
    let mut bytes: Vec<u8> = Vec::new();
    push_range(&mut bytes, LOWER_A, LOWER_Z);
    push_range(&mut bytes, UPPER_A, UPPER_Z);
    assert(bytes@ =~= letter_bytes());
    Error::Expected(bytes, at)
}

fn expected_token(at: usize) -> (e: Error)
    ensures
        e@ == SpecError::Expected(token_bytes(), at as int),
{
    let bytes: Vec<u8> = vec![
        LOWER_I, LOWER_E, LOWER_F, LOWER_W, AMPERSAND, BAR, EQUALS, BANG, LESS_THAN,
        GREATER_THAN, PLUS, MINUS, STAR, SLASH, BANG, EQUALS, LESS_THAN, GREATER_THAN,
        SEMICOLON, LEFT_PAREN, RIGHT_PAREN, LEFT_BRACE, RIGHT_BRACE,
    ];
    assert(bytes@ =~= token_bytes());
    Error::Expected(bytes, at)
}

/// The input from `at` on.
fn rest_from(src: &[u8], at: usize) -> (rest: &[u8])
    requires
        at <= src@.len(),
    ensures
        rest@ == src@.skip(at as int),
{
    slice_subrange(src, at, src.len())
}

fn scan_spaces(src: &[u8], i: usize) -> (e: usize)
    requires
        i <= src@.len(),
    ensures
        e == spaces_end(src@, i as int),
        i <= e <= src@.len(),
{
    let mut j: usize = i;
    while j < src.len() && byte_is_space(src[j])
        invariant
            i <= j <= src@.len(),
            spaces_end(src@, i as int) == spaces_end(src@, j as int),
        decreases src@.len() - j,
    {
        j += 1;
    }
    j
}

fn scan_digits(src: &[u8], i: usize) -> (e: usize)
    requires
        i <= src@.len(),
    ensures
        e == digits_end(src@, i as int),
        i <= e <= src@.len(),
        forall|k: int| i <= k < e ==> is_digit(#[trigger] src@[k]),
{
    let mut j: usize = i;
    while j < src.len() && byte_is_digit(src[j])
        invariant
            i <= j <= src@.len(),
            digits_end(src@, i as int) == digits_end(src@, j as int),
            forall|k: int| i <= k < j ==> is_digit(#[trigger] src@[k]),
        decreases src@.len() - j,
    {
        j += 1;
    }
    j
}

fn scan_word(src: &[u8], i: usize) -> (e: usize)
    requires
        i <= src@.len(),
    ensures
        e == word_end(src@, i as int),
        i <= e <= src@.len(),
{
    let mut j: usize = i;
    while j < src.len() && byte_is_word(src[j])
        invariant
            i <= j <= src@.len(),
            word_end(src@, i as int) == word_end(src@, j as int),
        decreases src@.len() - j,
    {
        j += 1;
    }
    j
}

fn scan_line(src: &[u8], i: usize) -> (e: usize)
    requires
        i <= src@.len(),
    ensures
        e == line_end(src@, i as int),
        i <= e <= src@.len(),
{
    let mut j: usize = i;
    while j < src.len()
        invariant
            i <= j <= src@.len(),
            line_end(src@, i as int) == line_end(src@, j as int),
        decreases src@.len() - j,
    {
        if src[j] == LINE_FEED || src[j] == CARRIAGE_RETURN {
            return j + 1;
        }
        j += 1;
    }
    j
}

fn has_pair(src: &[u8], i: usize, a: u8, b: u8) -> (r: bool)
    requires
        i <= src@.len(),
    ensures
        r == pair_at(src@, i as int, a, b),
{
    src.len() - i >= 2 && src[i] == a && src[i + 1] == b
}

fn scan_block(src: &[u8], i: usize) -> (r: Option<usize>)
    requires
        i <= src@.len(),
    ensures
        match block_end(src@, i as int) {
            Some(k) => r matches Some(e) && e == k && i < k <= src@.len(),
            None => r is None,
        },
{
    let mut j: usize = i;
    while j < src.len()
        invariant
            i <= j <= src@.len(),
            block_end(src@, i as int) == block_end(src@, j as int),
        decreases src@.len() - j,
    {
        if has_pair(src, j, STAR, SLASH) {
            return Some(j + 2);
        }
        j += 1;
    }
    None
}

fn scan_blank(src: &[u8], i: usize) -> (r: Result<usize, Error>)
    requires
        i <= src@.len(),
    ensures
        end_matches(r, blank_end(src@, i as int)),
        r matches Ok(e) ==> i <= e <= src@.len(),
{
    let n: usize = src.len();
    let mut j: usize = i;
    loop
        invariant
            n == src@.len(),
            i <= j <= src@.len(),
            blank_end(src@, i as int) == blank_end(src@, j as int),
        decreases src@.len() - j,
    {
        let k: usize = scan_spaces(src, j);
        if has_pair(src, k, SLASH, SLASH) {
            j = scan_line(src, k + 2);
        } else if has_pair(src, k, SLASH, STAR) {
            match scan_block(src, k + 2) {
                Some(e) => {
                    j = e;
                },
                None => {
                    let bytes: Vec<u8> = vec![STAR, SLASH];
                    assert(bytes@ =~= block_end_bytes());
                    return Err(Error::Expected(bytes, n));
                },
            }
        } else {
            return Ok(k);
        }
    }
}

/// Digits only add to the number that the digits before them denote.
proof fn lemma_decimal_grows(digits: Seq<u8>, k: int)
    requires
        0 <= k <= digits.len(),
        forall|j: int| 0 <= j < digits.len() ==> is_digit(#[trigger] digits[j]),
    ensures
        decimal(digits.take(k)) <= decimal(digits),
    decreases digits.len(),
{
    if k < digits.len() {
        lemma_decimal_grows(digits.drop_last(), k);
        assert(digits.drop_last().take(k) =~= digits.take(k));
    } else {
        assert(digits.take(k) =~= digits);
    }
}

/// The value of the digits `src[start..end]`, where it fits.
fn digits_value(src: &[u8], start: usize, end: usize) -> (r: Option<isize>)
    requires
        start <= end <= src@.len(),
        forall|k: int| start <= k < end ==> is_digit(#[trigger] src@[k]),
    ensures
        match r {
            Some(v) => v == decimal(src@.subrange(start as int, end as int)),
            None => decimal(src@.subrange(start as int, end as int)) > isize::MAX,
        },
{
    let ghost digits = src@.subrange(start as int, end as int);
    let mut value: isize = 0;
    let mut j: usize = start;
    while j < end
        invariant
            start <= j <= end <= src@.len(),
            digits == src@.subrange(start as int, end as int),
            forall|k: int| start <= k < end ==> is_digit(#[trigger] src@[k]),
            0 <= value == decimal(src@.subrange(start as int, j as int)),
        decreases end - j,
    {
        let d: isize = (src[j] - DIGIT_0) as isize;
        proof {
            let upto = src@.subrange(start as int, j + 1);
            assert(upto.drop_last() =~= src@.subrange(start as int, j as int));
            assert(upto.last() == src@[j as int]);
            assert(decimal(upto) == value * 10 + d);
            assert(digits.take(j + 1 - start) =~= upto);
            lemma_decimal_grows(digits, j + 1 - start);
        }
        let next: Option<isize> = match value.checked_mul(10) {
            Some(tens) => tens.checked_add(d),
            None => None,
        };
        match next {
            Some(v) => {
                value = v;
            },
            None => {
                return None;
            },
        }
        j += 1;
    }
    Some(value)
}

/// The token that the word `src[start..end]` is.
fn word(src: &[u8], start: usize, end: usize) -> (t: Token)
    requires
        start <= end <= src@.len(),
    ensures
        t@ == word_token(src@.subrange(start as int, end as int)),
{
    let name = text_of(src, start, end);
    if name == "if".to_owned() {
        Token::If
    } else if name == "else".to_owned() {
        Token::Else
    } else if name == "for".to_owned() {
        Token::For
    } else if name == "while".to_owned() {
        Token::While
    } else if name == "return".to_owned() {
        Token::Return
    } else {
        Token::Identity(name)
    }
}

fn scan_symbol(src: &[u8], i: usize) -> (r: Option<(Token, usize)>)
    requires
        i < src@.len(),
    ensures
        match symbol_at(src@, i as int) {
            Some((t, n)) => r matches Some((tok, len)) && tok@ == t && len == n,
            None => r is None,
        },
{
    let b: u8 = src[i];
    if has_pair(src, i, AMPERSAND, AMPERSAND) {
        Some((Token::And, 2))
    } else if has_pair(src, i, BAR, BAR) {
        Some((Token::Or, 2))
    } else if has_pair(src, i, EQUALS, EQUALS) {
        Some((Token::Equal, 2))
    } else if has_pair(src, i, BANG, EQUALS) {
        Some((Token::NotEqual, 2))
    } else if has_pair(src, i, LESS_THAN, EQUALS) {
        Some((Token::LessEqual, 2))
    } else if has_pair(src, i, GREATER_THAN, EQUALS) {
        Some((Token::MoreEqual, 2))
    } else if b == PLUS {
        Some((Token::Plus, 1))
    } else if b == MINUS {
        Some((Token::Minus, 1))
    } else if b == STAR {
        Some((Token::Multiple, 1))
    } else if b == SLASH {
        Some((Token::Devide, 1))
    } else if b == BANG {
        Some((Token::Not, 1))
    } else if b == EQUALS {
        Some((Token::Assign, 1))
    } else if b == LESS_THAN {
        Some((Token::Less, 1))
    } else if b == GREATER_THAN {
        Some((Token::More, 1))
    } else if b == SEMICOLON {
        Some((Token::EndExpr, 1))
    } else if b == LEFT_PAREN {
        Some((Token::LeftParen, 1))
    } else if b == RIGHT_PAREN {
        Some((Token::RightParen, 1))
    } else if b == LEFT_BRACE {
        Some((Token::LeftBlock, 1))
    } else if b == RIGHT_BRACE {
        Some((Token::RightBlock, 1))
    } else {
        None
    }
}

/// Whether a token and an end position are what the rules give at a
/// position, or an error the rules' error.
pub open spec fn token_matches(
    r: Result<(Token, usize), Error>,
    rule: Result<(SpecToken, int), SpecError>,
) -> bool {
    match rule {
        Ok((t, e)) => r matches Ok((tok, end)) && tok@ == t && end == e,
        Err(e) => r matches Err(err) && err@ == e,
    }
}

fn scan_token(src: &[u8], i: usize) -> (r: Result<(Token, usize), Error>)
    requires
        i <= src@.len(),
    ensures
        token_matches(r, token_at(src@, i as int)),
        r matches Ok((_, e)) ==> i < e <= src@.len(),
{
    if i >= src.len() {
        return Err(expected_token(i));
    }
    let b: u8 = src[i];
    if byte_is_letter(b) {
        let e: usize = scan_word(src, i + 1);
        Ok((word(src, i, e), e))
    } else if byte_is_digit(b) {
        let e: usize = scan_digits(src, i);
        proof {
            super::rules::lemma_digits_run(src@, i + 1);
        }
        match digits_value(src, i, e) {
            Some(v) => Ok((Token::Number(v), e)),
            None => Err(Error::Overflow(i)),
        }
    } else {
        match scan_symbol(src, i) {
            Some((t, n)) => Ok((t, i + n)),
            None => Err(expected_token(i)),
        }
    }
}

/// Drops the whitespace that `src` starts with.
pub fn skip_spaces(src: &[u8]) -> (rest: &[u8])
    ensures
        rest@ == src@.skip(spaces_end(src@, 0)),
{
    let e: usize = scan_spaces(src, 0);
    rest_from(src, e)
}

/// Drops the rest of the line: everything up to and including the first
/// line feed or carriage return, or everything where there is none. It
/// never fails.
pub fn skip_until_newline(src: &[u8]) -> (r: Result<&[u8], Error>)
    ensures
        r matches Ok(rest) && rest@ == src@.skip(line_end(src@, 0)),
{
    let e: usize = scan_line(src, 0);
    Ok(rest_from(src, e))
}

/// Drops a `//` comment where `src` starts with one: the rest of the line,
/// its line break included where it has one. It hands `src` back where
/// `src` does not start with one, and never fails.
pub fn skip_comment_oneline(src: &[u8]) -> (r: Result<&[u8], Error>)
    ensures
        r matches Ok(rest) && rest@ == (if pair_at(src@, 0, SLASH, SLASH) {
            src@.skip(line_end(src@, 2))
        } else {
            src@
        }),
{
    if has_pair(src, 0, SLASH, SLASH) {
        let e: usize = scan_line(src, 2);
        Ok(rest_from(src, e))
    } else {
        Ok(src)
    }
}

/// Drops everything up to and including the first `*/`. Without one, the
/// two bytes are missing at the end of `src`.
pub fn skip_until_end_of_block_comment(src: &[u8]) -> (r: Result<&[u8], Error>)
    ensures
        match block_end(src@, 0) {
            Some(k) => r matches Ok(rest) && rest@ == src@.skip(k),
            None => r matches Err(e) && e@ == SpecError::Expected(
                block_end_bytes(),
                src@.len() as int,
            ),
        },
{
    match scan_block(src, 0) {
        Some(e) => Ok(rest_from(src, e)),
        None => {
            let bytes: Vec<u8> = vec![STAR, SLASH];
            assert(bytes@ =~= block_end_bytes());
            Err(Error::Expected(bytes, src.len()))
        },
    }
}

/// Drops a `/* */` comment where `src` starts with one; hands `src` back
/// where it does not.
pub fn skip_comment_block(src: &[u8]) -> (r: Result<&[u8], Error>)
    ensures
        !pair_at(src@, 0, SLASH, STAR) ==> (r matches Ok(rest) && rest@ == src@),
        pair_at(src@, 0, SLASH, STAR) ==> match block_end(src@, 2) {
            Some(k) => r matches Ok(rest) && rest@ == src@.skip(k),
            None => r matches Err(e) && e@ == SpecError::Expected(
                block_end_bytes(),
                src@.len() as int,
            ),
        },
{
    if has_pair(src, 0, SLASH, STAR) {
        match scan_block(src, 2) {
            Some(e) => Ok(rest_from(src, e)),
            None => {
                let bytes: Vec<u8> = vec![STAR, SLASH];
                assert(bytes@ =~= block_end_bytes());
                Err(Error::Expected(bytes, src.len()))
            },
        }
    } else {
        Ok(src)
    }
}

/// Drops the whole run of whitespace and comments that `src` starts with.
pub fn ignore_space_and_comment(src: &[u8]) -> (r: Result<&[u8], Error>)
    ensures
        rest_matches(r, src, blank_end(src@, 0)),
{
    match scan_blank(src, 0) {
        Ok(e) => Ok(rest_from(src, e)),
        Err(e) => Err(e),
    }
}

/// Splits `src` after the digits that it starts with, and hands them back
/// as text.
pub fn number_inner(src: &[u8]) -> (r: (String, &[u8]))
    ensures
        r.0@ == text(src@.take(digits_end(src@, 0))),
        r.1@ == src@.skip(digits_end(src@, 0)),
{
    let e: usize = scan_digits(src, 0);
    assert(src@.take(e as int) =~= src@.subrange(0, e as int));
    (text_of(src, 0, e), rest_from(src, e))
}

/// The number that `src` starts with, and the rest of `src`: the value of
/// the longest run of digits at the start.
///
/// Where `src` does not start with a digit the result is `Expected` with
/// the digits, and where the run denotes a number that does not fit it is
/// `Overflow`, both at the position 0.
pub fn number(src: &[u8]) -> (r: Result<(isize, &[u8]), Error>)
    ensures
        match r {
            Ok((v, rest)) => {
                &&& src@.len() > 0 && is_digit(src@[0])
                &&& v == decimal(src@.take(digits_end(src@, 0)))
                &&& rest@ == src@.skip(digits_end(src@, 0))
            },
            Err(e) => {
                if src@.len() > 0 && is_digit(src@[0]) {
                    &&& decimal(src@.take(digits_end(src@, 0))) > isize::MAX
                    &&& e@ == SpecError::Overflow(0)
                } else {
                    e@ == SpecError::Expected(digit_bytes(), 0)
                }
            },
        },
{
    if src.len() > 0 && byte_is_digit(src[0]) {
        let e: usize = scan_digits(src, 0);
        assert(src@.take(e as int) =~= src@.subrange(0, e as int));
        match digits_value(src, 0, e) {
            Some(v) => Ok((v, rest_from(src, e))),
            None => Err(Error::Overflow(0)),
        }
    } else {
        Err(expected_digit(0))
    }
}

/// Splits `src` after the identifier bytes that it starts with, and hands
/// them back as text.
pub fn identity_inner(src: &[u8]) -> (r: (String, &[u8]))
    ensures
        r.0@ == text(src@.take(word_end(src@, 0))),
        r.1@ == src@.skip(word_end(src@, 0)),
{
    let e: usize = scan_word(src, 0);
    assert(src@.take(e as int) =~= src@.subrange(0, e as int));
    (text_of(src, 0, e), rest_from(src, e))
}

/// The word that `src` starts with, and the rest of `src`: a letter and the
/// longest run of letters, digits and `_` after it.
pub fn identity(src: &[u8]) -> (r: Result<(String, &[u8]), Error>)
    ensures
        match r {
            Ok((name, rest)) => {
                &&& src@.len() > 0 && is_letter(src@[0])
                &&& name@ == text(src@.take(word_end(src@, 1)))
                &&& rest@ == src@.skip(word_end(src@, 1))
            },
            Err(e) => {
                &&& !(src@.len() > 0 && is_letter(src@[0]))
                &&& e@ == SpecError::Expected(letter_bytes(), 0)
            },
        },
{
    if src.len() > 0 && byte_is_letter(src[0]) {
        let e: usize = scan_word(src, 1);
        assert(src@.take(e as int) =~= src@.subrange(0, e as int));
        Ok((text_of(src, 0, e), rest_from(src, e)))
    } else {
        Err(expected_letter(0))
    }
}

/// The token that `src` starts with, and the rest of `src`.
pub fn token(src: &[u8]) -> (r: Result<(Token, &[u8]), Error>)
    ensures
        match token_at(src@, 0) {
            Ok((t, e)) => r matches Ok((tok, rest)) && tok@ == t && rest@ == src@.skip(e),
            Err(e) => r matches Err(err) && err@ == e,
        },
{
    match scan_token(src, 0) {
        Ok((t, e)) => Ok((t, rest_from(src, e))),
        Err(e) => Err(e),
    }
}

/// The tokens read so far, followed by what the rest of the input gives.
pub open spec fn then_lex(
    head: Seq<SpecToken>,
    tail: Result<Seq<SpecToken>, SpecError>,
) -> Result<Seq<SpecToken>, SpecError> {
    match tail {
        Ok(rest) => Ok(head + rest),
        Err(e) => Err(e),
    }
}

/// The token sequence of `src`, and what is left of `src`, which is
/// nothing; or the first error, by its position in `src`.
pub fn tokens(src: &[u8]) -> (r: Result<(Vec<Token>, &[u8]), Error>)
    ensures
        match lex(src@) {
            Ok(ts) => r matches Ok((toks, rest)) && toks.deep_view() == ts && rest@.len() == 0,
            Err(e) => r matches Err(err) && err@ == e,
        },
{
    let mut result: Vec<Token> = Vec::new();
    let mut pos: usize = 0;
    proof {
        if let Ok(ts) = lex(src@) {
            assert(result.deep_view() + ts =~= ts);
        }
    }
    loop
        invariant
            pos <= src@.len(),
            lex(src@) == then_lex(result.deep_view(), lex_from(src@, pos as int)),
        decreases src@.len() - pos,
    {
        let start: usize = match scan_blank(src, pos) {
            Ok(e) => e,
            Err(e) => {
                return Err(e);
            },
        };
        if start >= src.len() {
            assert(result.deep_view() + Seq::<SpecToken>::empty() =~= result.deep_view());
            return Ok((result, rest_from(src, start)));
        }
        match scan_token(src, start) {
            Ok((t, e)) => {
                proof {
                    let before = result.deep_view();
                    let after = result@.push(t);
                    let tail = lex_from(src@, e as int);
                    assert(Seq::new(after.len(), |k: int| after[k].deep_view()) =~= before.push(
                        t@,
                    ));
                    if let Ok(rest) = tail {
                        assert(before + (seq![t@] + rest) =~= before.push(t@) + rest);
                    }
                }
                result.push(t);
                pos = e;
            },
            Err(e) => {
                return Err(e);
            },
        }
    }
}

} // verus!
