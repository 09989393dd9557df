//! What gluster's decoder can be handed.
//!
//! The decoder first takes a brick's prefix off every name and then reads
//! the numbers of what is left with serde_json. That reader keeps the
//! exponent of a number in 32 bits: it counts the digits of the fraction
//! down, subtracts a negative exponent from that count, and takes the
//! absolute value of the outcome. Where the digits of the fraction and the
//! exponent add up to two to the power of thirty-one, the absolute value
//! leaves the 32 bits and the reader may panic.
//!
//! So a text is tested before it is handed over. The test looks at the text
//! as the decoder will see it, with the prefixes taken off, and only at what
//! stands outside quotes: a quoted name or a quoted number never reaches the
//! exponent arithmetic. It turns down a text only for a number with a
//! negative exponent below two to the power of thirty-one that, with the
//! digits of the fraction before it, reaches that power, or for more than
//! `DECODER_LIMIT` characters, beyond which the count of digits alone could
//! leave the 32 bits.

use crate::text::{chars_of, is_decimal_digit, is_digit, matches_at, occurs_at};
use vstd::prelude::*;

verus! {

/// The most characters that the decoder may be left with: two to the power
/// of thirty.
pub const DECODER_LIMIT: usize = 1073741824;

/// Two to the power of thirty-one: what the digits of a fraction and a
/// negative exponent must not add up to.
pub const EXPONENT_RANGE: u64 = 2147483648;

/// `text` with every `pat` taken off, as `str::replace` with an empty
/// replacement does it: from the left, and what is left of one match is not
/// searched again. An empty `pat` takes nothing off.
pub open spec fn without(text: Seq<char>, pat: Seq<char>) -> Seq<char>
    decreases text.len(),
{
    if pat.len() == 0 || text.len() < pat.len() {
        text
    } else if occurs_at(text, pat, 0) {
        without(text.skip(pat.len() as int), pat)
    } else {
        seq![text[0]] + without(text.skip(1), pat)
    }
}

/// Where a reader of JSON stands in a text.
#[derive(Debug, Clone, Copy, PartialEq, Eq, Structural)]
pub enum Lex {
    /// Outside quotes.
    Outside,
    /// Between quotes.
    Inside,
    /// Between quotes, right behind a backslash.
    Escaped,
}

/// Where the reader stands after `c`: a quote opens or closes quoted text,
/// and between quotes a backslash takes the next character with it.
pub open spec fn lex_step(state: Lex, c: char) -> Lex {
    match state {
        Lex::Outside => if c == '"' {
            Lex::Inside
        } else {
            Lex::Outside
        },
        Lex::Inside => if c == '\\' {
            Lex::Escaped
        } else if c == '"' {
            Lex::Outside
        } else {
            Lex::Inside
        },
        Lex::Escaped => Lex::Inside,
    }
}

/// Where the reader stands before index `i` of `text`, having read from the
/// start.
pub open spec fn lex_before(text: Seq<char>, i: int) -> Lex
    decreases i,
{
    if i <= 0 {
        Lex::Outside
    } else {
        lex_step(lex_before(text, i - 1), text[i - 1])
    }
}

/// What the digit `c` counts.
pub open spec fn digit_value(c: char) -> nat {
    (c as int - '0' as int) as nat
}

/// The number that the digits `s` write; leading zeros do not count.
pub open spec fn digits_value(s: Seq<char>) -> nat
    decreases s.len(),
{
    if s.len() == 0 {
        0
    } else {
        digits_value(s.drop_last()) * 10 + digit_value(s.last())
    }
}

/// The end of the run of digits that starts at index `from` of `text`.
pub open spec fn digits_end(text: Seq<char>, from: int) -> int
    decreases text.len() - from,
{
    if 0 <= from < text.len() && is_digit(text[from]) {
        digits_end(text, from + 1)
    } else {
        from
    }
}

/// The start of the run of digits that ends right before index `to` of
/// `text`.
pub open spec fn digits_start(text: Seq<char>, to: int) -> int
    decreases to,
{
    if 0 < to <= text.len() && is_digit(text[to - 1]) {
        digits_start(text, to - 1)
    } else {
        to
    }
}

/// The number of digits that stand between a point and index `i` of `text`,
/// with nothing else between them; none where no point stands before the
/// digits.
pub open spec fn fraction_digits(text: Seq<char>, i: int) -> int {
    let start = digits_start(text, i);
    if 0 < start <= text.len() && text[start - 1] == '.' {
        i - start
    } else {
        0
    }
}

/// The number that the digits from index `from` of `text` on write.
pub open spec fn exponent_value(text: Seq<char>, from: int) -> nat {
    digits_value(text.subrange(from, digits_end(text, from)))
}

/// At index `i` of `text`, outside quotes, stands an `e` or `E` and a minus
/// sign, and the exponent behind them is below two to the power of
/// thirty-one but reaches it together with the digits of the fraction before
/// the `e`.
pub open spec fn exponent_out_of_range_at(text: Seq<char>, i: int) -> bool {
    &&& 0 <= i
    &&& i + 1 < text.len()
    &&& lex_before(text, i) == Lex::Outside
    &&& (text[i] == 'e' || text[i] == 'E')
    &&& text[i + 1] == '-'
    &&& exponent_value(text, i + 2) < EXPONENT_RANGE
    &&& exponent_value(text, i + 2) + fraction_digits(text, i) >= EXPONENT_RANGE
}

/// The decoder can take `text`, from which it will first take off every
/// `prefix`: what it is left with holds at most `DECODER_LIMIT` characters
/// and no exponent out of range.
pub open spec fn decodable(text: Seq<char>, prefix: Seq<char>) -> bool {
    &&& without(text, prefix).len() <= DECODER_LIMIT
    &&& forall|i: int| !exponent_out_of_range_at(without(text, prefix), i)
}

/// A match at index `i` is a match at the start of what stands from `i` on.
proof fn lemma_occurs_in_rest(text: Seq<char>, pat: Seq<char>, i: int)
    requires
        0 <= i <= text.len(),
    ensures
        occurs_at(text.skip(i), pat, 0) == occurs_at(text, pat, i),
{
    if i + pat.len() <= text.len() {
        assert(text.skip(i).subrange(0, pat.len() as int) == text.subrange(i, i + pat.len()));
    }
}

/// Takes every `pat` off `text`.
pub fn remove_all(text: &Vec<char>, pat: &Vec<char>) -> (r: Vec<char>)
    ensures
        r@ == without(text@, pat@),
{
    let mut out: Vec<char> = Vec::new();
    let mut i: usize = 0;
    assert(text@.skip(0) == text@);
    while i < text.len()
        invariant
            i <= text.len(),
            out@ + without(text@.skip(i as int), pat@) == without(text@, pat@),
        decreases text.len() - i,
    {
        let ghost rest = text@.skip(i as int);
        proof {
            lemma_occurs_in_rest(text@, pat@, i as int);
        }
        if pat.len() > 0 && matches_at(text, pat, i) {
            assert(rest.skip(pat.len() as int) == text@.skip(i + pat.len()));
            i += pat.len();
        } else {
            assert(rest.skip(1) == text@.skip(i + 1));
            assert(without(rest, pat@) == seq![rest[0]] + without(rest.skip(1), pat@)) by {
                if pat.len() == 0 || rest.len() < pat.len() {
                    assert(without(rest.skip(1), pat@) == rest.skip(1));
                    assert(seq![rest[0]] + rest.skip(1) == rest);
                }
            }
            let ghost before = out@;
            out.push(text[i]);
            assert(out@ == before + seq![rest[0]]);
            assert(out@ + without(rest.skip(1), pat@) == before + (seq![rest[0]] + without(
                rest.skip(1),
                pat@,
            )));
            i += 1;
        }
    }
    assert(text@.skip(text.len() as int) == Seq::<char>::empty());
    assert(out@ + Seq::<char>::empty() == out@);
    out
}

fn lex_next(state: Lex, c: char) -> (r: Lex)
    ensures
        r == lex_step(state, c),
{
    match state {
        Lex::Outside => if c == '"' {
            Lex::Inside
        } else {
            Lex::Outside
        },
        Lex::Inside => if c == '\\' {
            Lex::Escaped
        } else if c == '"' {
            Lex::Outside
        } else {
            Lex::Inside
        },
        Lex::Escaped => Lex::Inside,
    }
}

fn value_of_digit(c: char) -> (d: u64)
    requires
        is_digit(c),
    ensures
        d == digit_value(c),
        d <= 9,
{
    (c as u32 - '0' as u32) as u64
}

fn fraction_digits_before(text: &Vec<char>, i: usize) -> (n: usize)
    requires
        i <= text.len(),
    ensures
        n == fraction_digits(text@, i as int),
        n <= i,
{
    let mut start: usize = i;
    while start > 0 && is_decimal_digit(text[start - 1])
        invariant
            start <= i <= text.len(),
            digits_start(text@, i as int) == digits_start(text@, start as int),
        decreases start,
    {
        start -= 1;
    }
    if start > 0 && text[start - 1] == '.' {
        i - start
    } else {
        0
    }
}

/// The exponent from index `from` on, or `EXPONENT_RANGE` where it is that
/// or more.
fn exponent_up_to_range(text: &Vec<char>, from: usize) -> (v: u64)
    requires
        from <= text.len(),
    ensures
        v == if exponent_value(text@, from as int) < EXPONENT_RANGE {
            exponent_value(text@, from as int)
        } else {
            EXPONENT_RANGE as nat
        },
{
    let mut v: u64 = 0;
    let mut k: usize = from;
    assert(text@.subrange(from as int, from as int) == Seq::<char>::empty());
    while k < text.len() && is_decimal_digit(text[k])
        invariant
            from <= k <= text.len(),
            digits_end(text@, from as int) == digits_end(text@, k as int),
            v <= EXPONENT_RANGE,
            v == if digits_value(text@.subrange(from as int, k as int)) < EXPONENT_RANGE {
                digits_value(text@.subrange(from as int, k as int))
            } else {
                EXPONENT_RANGE as nat
            },
        decreases text.len() - k,
    {
        let d = value_of_digit(text[k]);
        proof {
            let run = text@.subrange(from as int, k + 1);
            assert(run.drop_last() == text@.subrange(from as int, k as int));
            assert(run.last() == text@[k as int]);
        }
        v = if v >= EXPONENT_RANGE {
            EXPONENT_RANGE
        } else if v * 10 + d >= EXPONENT_RANGE {
            EXPONENT_RANGE
        } else {
            v * 10 + d
        };
        k += 1;
    }
    v
}

fn exponent_out_of_range(text: &Vec<char>, state: Lex, i: usize) -> (r: bool)
    requires
        i < text.len(),
        text.len() <= DECODER_LIMIT,
        state == lex_before(text@, i as int),
    ensures
        r == exponent_out_of_range_at(text@, i as int),
{
    if state != Lex::Outside || (text[i] != 'e' && text[i] != 'E') {
        return false;
    }
    if i + 1 >= text.len() || text[i + 1] != '-' {
        return false;
    }
    let exponent = exponent_up_to_range(text, i + 2);
    let fraction = fraction_digits_before(text, i);
    exponent < EXPONENT_RANGE && exponent + fraction as u64 >= EXPONENT_RANGE
}

/// Whether no number of `text` has an exponent out of range.
fn exponents_in_range(text: &Vec<char>) -> (r: bool)
    requires
        text.len() <= DECODER_LIMIT,
    ensures
        r == forall|i: int| !exponent_out_of_range_at(text@, i),
{
    let mut state = Lex::Outside;
    let mut i: usize = 0;
    while i < text.len()
        invariant
            i <= text.len(),
            text.len() <= DECODER_LIMIT,
            state == lex_before(text@, i as int),
            forall|j: int| 0 <= j < i ==> !exponent_out_of_range_at(text@, j),
        decreases text.len() - i,
    {
        if exponent_out_of_range(text, state, i) {
            return false;
        }
        state = lex_next(state, text[i]);
        i += 1;
    }
    true
}

/// Decides whether the decoder can take `json`, from which it will first
/// take off every `prefix`.
pub fn is_decodable(json: &str, prefix: &str) -> (r: bool)
    ensures
        r == decodable(json@, prefix@),
{
    let text = chars_of(json);
    let pat = chars_of(prefix);
    let seen = remove_all(&text, &pat);
    if seen.len() > DECODER_LIMIT {
        return false;
    }
    exponents_in_range(&seen)
}

/// A text in which the prefix does not occur is seen by the decoder as it
/// is.
pub proof fn lemma_without_absent(text: Seq<char>, pat: Seq<char>)
    requires
        forall|i: int| !occurs_at(text, pat, i),
    ensures
        without(text, pat) == text,
    decreases text.len(),
{
    if pat.len() > 0 && text.len() >= pat.len() {
        let rest = text.skip(1);
        assert forall|i: int| !occurs_at(rest, pat, i) by {
            if occurs_at(rest, pat, i) {
                assert(rest.subrange(i, i + pat.len()) == text.subrange(i + 1, i + 1 + pat.len()));
                assert(occurs_at(text, pat, i + 1));
            }
        }
        lemma_without_absent(rest, pat);
        assert(seq![text[0]] + rest == text);
    }
}

/// A text of no more than `DECODER_LIMIT` characters can be handed to the
/// decoder unless, once the prefixes are off, an `e` or `E` stands right
/// before a minus sign in it: only a negative exponent can be out of range.
pub proof fn lemma_no_negative_exponent_is_decodable(text: Seq<char>, prefix: Seq<char>)
    requires
        without(text, prefix).len() <= DECODER_LIMIT,
        forall|i: int|
            0 <= i && i + 1 < without(text, prefix).len() && (#[trigger] without(text, prefix)[i]
                == 'e' || without(text, prefix)[i] == 'E') ==> without(text, prefix)[i + 1] != '-',
    ensures
        decodable(text, prefix),
{
    let seen = without(text, prefix);
    assert forall|i: int| !exponent_out_of_range_at(seen, i) by {
        if exponent_out_of_range_at(seen, i) {
            assert(seen[i] == 'e' || seen[i] == 'E');
        }
    }
}

/// The run of digits before an index starts at or after the start of the
/// text, so a fraction has no more digits than stand before its end.
pub proof fn lemma_fraction_digits_bound(text: Seq<char>, i: int)
    requires
        0 <= i <= text.len(),
    ensures
        0 <= digits_start(text, i) <= i,
        0 <= fraction_digits(text, i) <= i,
    decreases i,
{
    if 0 < i && is_digit(text[i - 1]) {
        lemma_fraction_digits_bound(text, i - 1);
    }
}

/// In a text that the decoder may be left with, only an exponent of two to
/// the power of thirty or more can be out of range: no exponent of nine
/// digits or fewer is, however many zeros lead it.
pub proof fn lemma_out_of_range_is_large(text: Seq<char>, i: int)
    requires
        text.len() <= DECODER_LIMIT,
        exponent_out_of_range_at(text, i),
    ensures
        exponent_value(text, i + 2) >= DECODER_LIMIT,
{
    lemma_fraction_digits_bound(text, i);
}

/// Between quotes nothing is out of range: a quoted name or a quoted number
/// never keeps a text from the decoder.
pub proof fn lemma_quoted_is_in_range(text: Seq<char>, i: int)
    requires
        lex_before(text, i) != Lex::Outside,
    ensures
        !exponent_out_of_range_at(text, i),
{
}

/// A text that the decoder would see with an exponent out of range cannot be
/// handed to it.
pub proof fn lemma_out_of_range_is_undecodable(text: Seq<char>, prefix: Seq<char>, i: int)
    requires
        exponent_out_of_range_at(without(text, prefix), i),
    ensures
        !decodable(text, prefix),
{
}

} // verus!
