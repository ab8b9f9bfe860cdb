//! Building strings from characters.
use vstd::prelude::*;

verus! {

/// The characters that the bytes stand for, one for one.
pub open spec fn text(bytes: Seq<u8>) -> Seq<char> {
    Seq::new(bytes.len(), |k: int| bytes[k] as char)
}

/// Appends one character to a string.
///
/// Trusted: this is `String::push` of the standard library, which appends
/// the given character to the end of the string and changes nothing else.
#[verifier::external_body]
pub(crate) fn push_char(s: &mut String, c: char)
    ensures
        final(s)@ == old(s)@.push(c),
{
    s.push(c);
}

/// The bytes `src[start..end]` as a string, each byte taken as the
/// character of the same code.
pub fn text_of(src: &[u8], start: usize, end: usize) -> (r: String)
    requires
        start <= end <= src@.len(),
    ensures
        r@ == text(src@.subrange(start as int, end as int)),
{
    let mut r = String::new();
    let mut i: usize = start;
    while i < end
        invariant
            start <= i <= end <= src@.len(),
            r@ == text(src@.subrange(start as int, i as int)),
        decreases end - i,
    {
        push_char(&mut r, src[i] as char);
        i += 1;
        assert(r@ =~= text(src@.subrange(start as int, i as int)));
    }
    r
}

/// The character of a decimal digit.
pub open spec fn digit_char(d: nat) -> char {
    (48 + d) as char
}

/// The decimal digits of a natural number, without leading zeros.
pub open spec fn digits(n: nat) -> Seq<char>
    decreases n,
{
    if n < 10 {
        seq![digit_char(n)]
    } else {
        digits(n / 10).push(digit_char(n % 10))
    }
}

/// The number that a sequence of digit characters denotes.
pub open spec fn number_of(text: Seq<char>) -> nat
    decreases text.len(),
{
    if text.len() == 0 {
        0
    } else {
        (number_of(text.drop_last()) * 10 + (text.last() as int - 48)) as nat
    }
}

/// The digits of a number denote the number, so that no two numbers have
/// the same digits.
pub proof fn lemma_digits_denote(n: nat)
    ensures
        number_of(digits(n)) == n,
        digits(n).len() >= 1,
    decreases n,
{
    if n < 10 {
        reveal_with_fuel(number_of, 2);
        assert(digits(n).drop_last() =~= Seq::<char>::empty());
    } else {
        lemma_digits_denote(n / 10);
        assert(digits(n).drop_last() =~= digits(n / 10));
    }
}

/// An integer in decimal: a `-` before the digits of a negative number.
pub open spec fn decimal(n: int) -> Seq<char> {
    if n < 0 {
        seq!['-'] + digits((-n) as nat)
    } else {
        digits(n as nat)
    }
}

/// A signed machine integer in decimal.
pub open spec fn signed_text(n: isize) -> Seq<char> {
    decimal(n as int)
}

/// An unsigned machine integer in decimal.
pub open spec fn unsigned_text(n: usize) -> Seq<char> {
    decimal(n as int)
}

/// The digits not yet written: none for zero.
spec fn leading(m: nat) -> Seq<char> {
    if m == 0 {
        Seq::empty()
    } else {
        digits(m)
    }
}

/// Appends the decimal digits of `n` to `s`.
fn push_digits(s: &mut String, n: u128)
    ensures
        final(s)@ == old(s)@ + digits(n as nat),
{
    // The digits from the last to the first.
    let mut last_first: Vec<char> = Vec::new();
    let ghost mut written: Seq<char> = Seq::empty();
    let mut m: u128 = n;
    last_first.push(((48 + m % 10) as u8) as char);
    proof {
        written = seq![digit_char((m % 10) as nat)];
    }
    m = m / 10;
    assert(digits(n as nat) =~= leading(m as nat) + written);
    while m > 0
        invariant
            digits(n as nat) == leading(m as nat) + written,
            last_first@.len() == written.len(),
            forall|k: int|
                0 <= k < written.len() ==> last_first@[k] == written[written.len() - 1 - k],
        decreases m,
    {
        let ghost before = written;
        last_first.push(((48 + m % 10) as u8) as char);
        proof {
            written = seq![digit_char((m % 10) as nat)] + written;
            assert(digits(m as nat) =~= leading((m / 10) as nat) + seq![
                digit_char((m % 10) as nat),
            ]);
            assert(leading(m as nat) + before =~= leading((m / 10) as nat) + written);
        }
        m = m / 10;
    }
    assert(leading(0) + written =~= written);
    let mut k: usize = last_first.len();
    while k > 0
        invariant
            k <= last_first@.len() == written.len(),
            forall|j: int|
                0 <= j < written.len() ==> last_first@[j] == written[written.len() - 1 - j],
            s@ == old(s)@ + written.take(written.len() - k),
        decreases k,
    {
        k -= 1;
        push_char(s, last_first[k]);
        assert(s@ =~= old(s)@ + written.take(written.len() - k));
    }
    assert(written.take(written.len() as int) =~= written);
}

/// Appends `n` in decimal to `s`.
pub fn push_signed(s: &mut String, n: isize)
    ensures
        final(s)@ == old(s)@ + signed_text(n),
{
    let wide: i128 = n as i128;
    if wide < 0 {
        push_char(s, '-');
        push_digits(s, (-wide) as u128);
        assert(s@ =~= old(s)@ + signed_text(n));
    } else {
        push_digits(s, wide as u128);
    }
}

/// Appends `n` in decimal to `s`.
pub fn push_unsigned(s: &mut String, n: usize)
    ensures
        final(s)@ == old(s)@ + unsigned_text(n),
{
    push_digits(s, n as u128);
}

} // verus!
