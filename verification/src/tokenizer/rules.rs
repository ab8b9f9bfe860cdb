//! The lexical rules: what the token sequence of a source text is.
//!
//! Positions are byte indices into the source. Each rule is a spec function
//! of the source bytes and a start position.
use super::token::SpecToken;
use crate::text::text;
use vstd::prelude::*;

verus! {

// The ASCII codes that the scanner tells apart.
pub const LINE_FEED: u8 = 10;
pub const CARRIAGE_RETURN: u8 = 13;
pub const BANG: u8 = 33;
pub const AMPERSAND: u8 = 38;
pub const LEFT_PAREN: u8 = 40;
pub const RIGHT_PAREN: u8 = 41;
pub const STAR: u8 = 42;
pub const PLUS: u8 = 43;
pub const MINUS: u8 = 45;
pub const SLASH: u8 = 47;
pub const DIGIT_0: u8 = 48;
pub const DIGIT_9: u8 = 57;
pub const SEMICOLON: u8 = 59;
pub const LESS_THAN: u8 = 60;
pub const EQUALS: u8 = 61;
pub const GREATER_THAN: u8 = 62;
pub const UPPER_A: u8 = 65;
pub const UPPER_Z: u8 = 90;
pub const UNDERSCORE: u8 = 95;
pub const LOWER_A: u8 = 97;
pub const LOWER_E: u8 = 101;
pub const LOWER_F: u8 = 102;
pub const LOWER_I: u8 = 105;
pub const LOWER_W: u8 = 119;
pub const LOWER_Z: u8 = 122;
pub const LEFT_BRACE: u8 = 123;
pub const BAR: u8 = 124;
pub const RIGHT_BRACE: u8 = 125;

/// Why a source text has no token sequence: the model of the scanner's
/// error.
pub enum SpecError {
    Expected(Seq<u8>, int),
    Overflow(int),
}

/// Whitespace: the characters below U+0100 that Unicode classes as white
/// space, taken as single bytes.
pub open spec fn is_space(b: u8) -> bool {
    (9 <= b <= 13) || b == 32 || b == 0x85 || b == 0xa0
}

/// An ASCII decimal digit.
pub open spec fn is_digit(b: u8) -> bool {
    DIGIT_0 <= b <= DIGIT_9
}

/// An ASCII letter.
pub open spec fn is_letter(b: u8) -> bool {
    (LOWER_A <= b <= LOWER_Z) || (UPPER_A <= b <= UPPER_Z)
}

/// A byte that may continue an identifier: a letter, a digit or `_`.
pub open spec fn is_word_byte(b: u8) -> bool {
    is_letter(b) || is_digit(b) || b == UNDERSCORE
}

/// The bytes `lo ..= hi` in increasing order.
pub open spec fn byte_range(lo: u8, hi: u8) -> Seq<u8> {
    Seq::new((hi - lo + 1) as nat, |k: int| (lo + k) as u8)
}

/// What a block comment was waiting for when the input ended.
pub open spec fn block_end_bytes() -> Seq<u8> {
    seq![STAR, SLASH]
}

/// The bytes a number starts with.
pub open spec fn digit_bytes() -> Seq<u8> {
    byte_range(DIGIT_0, DIGIT_9)
}

/// The bytes an identifier starts with.
pub open spec fn letter_bytes() -> Seq<u8> {
    byte_range(LOWER_A, LOWER_Z) + byte_range(UPPER_A, UPPER_Z)
}

/// The list reported where no token starts.
pub open spec fn token_bytes() -> Seq<u8> {
    seq![
        LOWER_I, LOWER_E, LOWER_F, LOWER_W, AMPERSAND, BAR, EQUALS, BANG, LESS_THAN, GREATER_THAN, PLUS, MINUS, STAR, SLASH,
        BANG, EQUALS, LESS_THAN, GREATER_THAN, SEMICOLON, LEFT_PAREN, RIGHT_PAREN, LEFT_BRACE, RIGHT_BRACE,
    ]
}

/// The end of the longest run of whitespace that starts at `i`.
pub open spec fn spaces_end(s: Seq<u8>, i: int) -> int
    decreases s.len() - i,
{
    if 0 <= i < s.len() && is_space(s[i]) {
        spaces_end(s, i + 1)
    } else {
        i
    }
}

/// The end of the longest run of digits that starts at `i`.
pub open spec fn digits_end(s: Seq<u8>, i: int) -> int
    decreases s.len() - i,
{
    if 0 <= i < s.len() && is_digit(s[i]) {
        digits_end(s, i + 1)
    } else {
        i
    }
}

/// The end of the longest run of identifier bytes that starts at `i`.
pub open spec fn word_end(s: Seq<u8>, i: int) -> int
    decreases s.len() - i,
{
    if 0 <= i < s.len() && is_word_byte(s[i]) {
        word_end(s, i + 1)
    } else {
        i
    }
}

/// The end of the line that `i` lies in: the position just after the first
/// line feed or carriage return at or after `i`, or the end of the input
/// where there is none.
pub open spec fn line_end(s: Seq<u8>, i: int) -> int
    decreases s.len() - i,
{
    if 0 <= i < s.len() {
        if s[i] == LINE_FEED || s[i] == CARRIAGE_RETURN {
            i + 1
        } else {
            line_end(s, i + 1)
        }
    } else {
        i
    }
}

/// Whether the two bytes `a`, `b` stand at `i`.
pub open spec fn pair_at(s: Seq<u8>, i: int, a: u8, b: u8) -> bool {
    0 <= i && i + 1 < s.len() && s[i] == a && s[i + 1] == b
}

/// The position just after the first `*/` that starts at or after `i`, if
/// there is one.
pub open spec fn block_end(s: Seq<u8>, i: int) -> Option<int>
    decreases s.len() - i,
{
    if 0 <= i < s.len() {
        if pair_at(s, i, STAR, SLASH) {
            Some(i + 2)
        } else {
            block_end(s, i + 1)
        }
    } else {
        None
    }
}

/// A run of whitespace is the longest one: it ends inside the input, at or
/// after its start; every byte of it is of the kind; and the byte after it,
/// where there is one, is not.
pub proof fn lemma_spaces_run(s: Seq<u8>, i: int)
    requires
        0 <= i <= s.len(),
    ensures
        i <= spaces_end(s, i) <= s.len(),
        forall|k: int| i <= k < spaces_end(s, i) ==> is_space(#[trigger] s[k]),
        spaces_end(s, i) < s.len() ==> !is_space(s[spaces_end(s, i)]),
    decreases s.len() - i,
{
    if i < s.len() && is_space(s[i]) {
        lemma_spaces_run(s, i + 1);
    }
}

/// A run of digits is the longest one: it ends inside the input, at or
/// after its start; every byte of it is of the kind; and the byte after it,
/// where there is one, is not.
pub proof fn lemma_digits_run(s: Seq<u8>, i: int)
    requires
        0 <= i <= s.len(),
    ensures
        i <= digits_end(s, i) <= s.len(),
        forall|k: int| i <= k < digits_end(s, i) ==> is_digit(#[trigger] s[k]),
        digits_end(s, i) < s.len() ==> !is_digit(s[digits_end(s, i)]),
    decreases s.len() - i,
{
    if i < s.len() && is_digit(s[i]) {
        lemma_digits_run(s, i + 1);
    }
}

/// A run of identifier bytes is the longest one: it ends inside the input, at or
/// after its start; every byte of it is of the kind; and the byte after it,
/// where there is one, is not.
pub proof fn lemma_word_run(s: Seq<u8>, i: int)
    requires
        0 <= i <= s.len(),
    ensures
        i <= word_end(s, i) <= s.len(),
        forall|k: int| i <= k < word_end(s, i) ==> is_word_byte(#[trigger] s[k]),
        word_end(s, i) < s.len() ==> !is_word_byte(s[word_end(s, i)]),
    decreases s.len() - i,
{
    if i < s.len() && is_word_byte(s[i]) {
        lemma_word_run(s, i + 1);
    }
}

/// Whether a line feed or a carriage return stands at `k`.
pub open spec fn breaks_at(s: Seq<u8>, k: int) -> bool {
    0 <= k < s.len() && (s[k] == LINE_FEED || s[k] == CARRIAGE_RETURN)
}

/// A line ends just after the first line break at or after its start, or
/// at the end of the input where no line break follows.
pub proof fn lemma_line_end(s: Seq<u8>, i: int)
    requires
        0 <= i <= s.len(),
    ensures
        i <= line_end(s, i) <= s.len(),
        breaks_at(s, line_end(s, i) - 1) && i < line_end(s, i) || line_end(s, i) == s.len(),
        forall|j: int| i <= j < line_end(s, i) - 1 ==> !#[trigger] breaks_at(s, j),
    decreases s.len() - i,
{
    if i < s.len() && !(s[i] == LINE_FEED || s[i] == CARRIAGE_RETURN) {
        lemma_line_end(s, i + 1);
    }
}

/// A block comment ends just after the first `*/` at or after its start,
/// and has no end where there is none.
pub proof fn lemma_block_end(s: Seq<u8>, i: int)
    requires
        0 <= i,
    ensures
        match block_end(s, i) {
            Some(k) => i < k <= s.len() && pair_at(s, k - 2, STAR, SLASH) && forall|j: int|
                i <= j < k - 2 ==> !#[trigger] pair_at(s, j, STAR, SLASH),
            None => forall|j: int| i <= j ==> !#[trigger] pair_at(s, j, STAR, SLASH),
        },
    decreases s.len() - i,
{
    if i < s.len() && !pair_at(s, i, STAR, SLASH) {
        lemma_block_end(s, i + 1);
    }
}

/// The end of the longest run of whitespace, `//` line comments and
/// `/* */` block comments that starts at `i`.
///
/// A line comment ends with its line, at a line break or at the end of the
/// input. A block comment that the input ends in is an error at the end of
/// the input.
pub open spec fn blank_end(s: Seq<u8>, i: int) -> Result<int, SpecError>
    decreases s.len() - i,
{
    if !(0 <= i <= s.len()) {
        Ok(i)
    } else {
        let j = spaces_end(s, i);
        if pair_at(s, j, SLASH, SLASH) {
            proof {
                lemma_spaces_run(s, i);
                lemma_line_end(s, j + 2);
            }
            blank_end(s, line_end(s, j + 2))
        } else if pair_at(s, j, SLASH, STAR) {
            match block_end(s, j + 2) {
                Some(k) => {
                    proof {
                        lemma_spaces_run(s, i);
                        lemma_block_end(s, j + 2);
                    }
                    blank_end(s, k)
                },
                None => Err(SpecError::Expected(block_end_bytes(), s.len() as int)),
            }
        } else {
            Ok(j)
        }
    }
}

/// A run of whitespace and comments, where it ends at all, ends inside the
/// input, at or after its start.
pub proof fn lemma_blank_end(s: Seq<u8>, i: int)
    requires
        0 <= i <= s.len(),
    ensures
        blank_end(s, i) matches Ok(j) ==> i <= j <= s.len(),
    decreases s.len() - i,
{
    lemma_spaces_run(s, i);
    let j = spaces_end(s, i);
    if pair_at(s, j, SLASH, SLASH) {
        lemma_line_end(s, j + 2);
        lemma_blank_end(s, line_end(s, j + 2));
    } else if pair_at(s, j, SLASH, STAR) {
        lemma_block_end(s, j + 2);
        if let Some(k) = block_end(s, j + 2) {
            lemma_blank_end(s, k);
        }
    }
}

/// A line comment may end with the input: where `//` follows the whitespace
/// at `i` and no line break follows it, the rest of the input is left out,
/// and that is no error.
pub proof fn theorem_comment_to_the_end(s: Seq<u8>, i: int)
    requires
        0 <= i <= s.len(),
        pair_at(s, spaces_end(s, i), SLASH, SLASH),
        forall|j: int| spaces_end(s, i) <= j ==> !#[trigger] breaks_at(s, j),
    ensures
        blank_end(s, i) == Ok::<int, SpecError>(s.len() as int),
{
    let j = spaces_end(s, i);
    lemma_spaces_run(s, i);
    lemma_line_end(s, j + 2);
    let k = line_end(s, j + 2);
    if k < s.len() {
        assert(breaks_at(s, k - 1));
    }
    assert(blank_end(s, s.len() as int) == Ok::<int, SpecError>(s.len() as int));
}

/// The number that a sequence of decimal digits denotes.
pub open spec fn decimal(digits: Seq<u8>) -> nat
    decreases digits.len(),
{
    if digits.len() == 0 {
        0
    } else {
        (decimal(digits.drop_last()) * 10 + (digits.last() - DIGIT_0)) as nat
    }
}

/// The token that a word is: a keyword, or else an identifier.
pub open spec fn word_token(word: Seq<u8>) -> SpecToken {
    let name = text(word);
    if name == "if"@ {
        SpecToken::If
    } else if name == "else"@ {
        SpecToken::Else
    } else if name == "for"@ {
        SpecToken::For
    } else if name == "while"@ {
        SpecToken::While
    } else if name == "return"@ {
        SpecToken::Return
    } else {
        SpecToken::Identity(name)
    }
}

/// The operator or punctuation mark at `i` and its length. A two-byte
/// operator wins over its first byte alone.
pub open spec fn symbol_at(s: Seq<u8>, i: int) -> Option<(SpecToken, int)>
    recommends
        0 <= i < s.len(),
{
    let b = s[i];
    if pair_at(s, i, AMPERSAND, AMPERSAND) {
        Some((SpecToken::And, 2))
    } else if pair_at(s, i, BAR, BAR) {
        Some((SpecToken::Or, 2))
    } else if pair_at(s, i, EQUALS, EQUALS) {
        Some((SpecToken::Equal, 2))
    } else if pair_at(s, i, BANG, EQUALS) {
        Some((SpecToken::NotEqual, 2))
    } else if pair_at(s, i, LESS_THAN, EQUALS) {
        Some((SpecToken::LessEqual, 2))
    } else if pair_at(s, i, GREATER_THAN, EQUALS) {
        Some((SpecToken::MoreEqual, 2))
    } else if b == PLUS {
        Some((SpecToken::Plus, 1))
    } else if b == MINUS {
        Some((SpecToken::Minus, 1))
    } else if b == STAR {
        Some((SpecToken::Multiple, 1))
    } else if b == SLASH {
        Some((SpecToken::Devide, 1))
    } else if b == BANG {
        Some((SpecToken::Not, 1))
    } else if b == EQUALS {
        Some((SpecToken::Assign, 1))
    } else if b == LESS_THAN {
        Some((SpecToken::Less, 1))
    } else if b == GREATER_THAN {
        Some((SpecToken::More, 1))
    } else if b == SEMICOLON {
        Some((SpecToken::EndExpr, 1))
    } else if b == LEFT_PAREN {
        Some((SpecToken::LeftParen, 1))
    } else if b == RIGHT_PAREN {
        Some((SpecToken::RightParen, 1))
    } else if b == LEFT_BRACE {
        Some((SpecToken::LeftBlock, 1))
    } else if b == RIGHT_BRACE {
        Some((SpecToken::RightBlock, 1))
    } else {
        None
    }
}

/// The token that starts at `i`, and the position just after it.
///
/// A word is the longest run of identifier bytes after a letter, so a
/// keyword is only recognised where no identifier byte follows it. A number
/// is the longest run of digits.
pub open spec fn token_at(s: Seq<u8>, i: int) -> Result<(SpecToken, int), SpecError> {
    if !(0 <= i < s.len()) {
        Err(SpecError::Expected(token_bytes(), i))
    } else if is_letter(s[i]) {
        let e = word_end(s, i + 1);
        Ok((word_token(s.subrange(i, e)), e))
    } else if is_digit(s[i]) {
        let e = digits_end(s, i);
        let v = decimal(s.subrange(i, e));
        if v > isize::MAX {
            Err(SpecError::Overflow(i))
        } else {
            Ok((SpecToken::Number(v as isize), e))
        }
    } else {
        match symbol_at(s, i) {
            Some((t, n)) => Ok((t, i + n)),
            None => Err(SpecError::Expected(token_bytes(), i)),
        }
    }
}

/// A token, where one starts at `i`, ends after `i` and inside the input.
pub proof fn lemma_token_at(s: Seq<u8>, i: int)
    ensures
        token_at(s, i) matches Ok((_, k)) ==> 0 <= i < k <= s.len(),
{
    if 0 <= i < s.len() {
        lemma_word_run(s, i + 1);
        lemma_digits_run(s, i + 1);
    }
}

/// The tokens of `s` from position `i` on.
pub open spec fn lex_from(s: Seq<u8>, i: int) -> Result<Seq<SpecToken>, SpecError>
    decreases s.len() - i,
{
    if !(0 <= i <= s.len()) {
        Ok(Seq::empty())
    } else {
        match blank_end(s, i) {
            Err(e) => Err(e),
            Ok(j) => {
                if j >= s.len() {
                    Ok(Seq::empty())
                } else {
                    match token_at(s, j) {
                        Err(e) => Err(e),
                        Ok((t, k)) => {
                            proof {
                                lemma_blank_end(s, i);
                                lemma_token_at(s, j);
                            }
                            match lex_from(s, k) {
                                Err(e) => Err(e),
                                Ok(rest) => Ok(seq![t] + rest),
                            }
                        },
                    }
                }
            },
        }
    }
}

/// The token sequence of a source text: its tokens from left to right, with
/// whitespace and comments left out; or the first error.
pub open spec fn lex(s: Seq<u8>) -> Result<Seq<SpecToken>, SpecError> {
    lex_from(s, 0)
}

} // verus!
