//! The canonical decimal form of a number literal.
//!
//! A literal is read as the exact decimal number it spells, not through a
//! binary approximation, so every digit that carries value is kept.

use vstd::prelude::*;
use crate::classes::{find_run_end, lemma_run_end, lemma_run_end_unique, run_end, CharClass};
use crate::text::push_range;

verus! {

/// Whether `text` spells an unsigned decimal number: one or more digits,
/// then optionally a dot and zero or more digits.
pub open spec fn is_decimal(text: Seq<char>) -> bool {
    let dot = run_end(text, 0, CharClass::Digit);
    &&& dot >= 1
    &&& (dot == text.len() || (text[dot] == '.' && run_end(text, dot + 1, CharClass::Digit)
        == text.len()))
}

/// `digits` without its leading zeros; a single `0` where nothing else is
/// left.
pub open spec fn trim_leading_zeros(digits: Seq<char>) -> Seq<char> {
    let zeros = run_end(digits, 0, CharClass::Zero);
    if zeros < digits.len() {
        digits.skip(zeros)
    } else {
        seq!['0']
    }
}

/// `digits` without its trailing zeros.
pub open spec fn trim_trailing_zeros(digits: Seq<char>) -> Seq<char>
    decreases digits.len(),
{
    if digits.len() > 0 && digits.last() == '0' {
        trim_trailing_zeros(digits.drop_last())
    } else {
        digits
    }
}

/// The digits before the dot of a decimal `text`.
pub open spec fn whole_part(text: Seq<char>) -> Seq<char> {
    text.subrange(0, run_end(text, 0, CharClass::Digit))
}

/// The digits after the dot of a decimal `text`; empty where it has no dot.
pub open spec fn fraction_part(text: Seq<char>) -> Seq<char> {
    let dot = run_end(text, 0, CharClass::Digit);
    if dot < text.len() {
        text.subrange(dot + 1, text.len() as int)
    } else {
        Seq::empty()
    }
}

/// The canonical form of a whole part and a fraction part: the whole part
/// without leading zeros, a dot, and the fraction without trailing zeros,
/// which is a single `0` where the fraction is zero.
pub open spec fn canonical_parts(whole: Seq<char>, fraction: Seq<char>) -> Seq<char> {
    let kept = trim_trailing_zeros(fraction);
    trim_leading_zeros(whole) + seq!['.'] + (if kept.len() == 0 {
        seq!['0']
    } else {
        kept
    })
}

/// The canonical form of a number literal. A decimal number keeps its value
/// and loses the zeros that carry none; a dot with nothing behind it counts
/// as `.0`. Text that is no decimal number gives `0.0`.
pub open spec fn canonical_number(text: Seq<char>) -> Seq<char> {
    if is_decimal(text) {
        canonical_parts(whole_part(text), fraction_part(text))
    } else {
        seq!['0', '.', '0']
    }
}

/// The length of `chars[from..to]` once its trailing zeros are gone, counted
/// from `from`.
fn trailing_zeros_start(chars: &[char], from: usize, to: usize) -> (end: usize)
    requires
        from <= to <= chars@.len(),
    ensures
        from <= end <= to,
        chars@.subrange(from as int, end as int) == trim_trailing_zeros(
            chars@.subrange(from as int, to as int),
        ),
{
    let mut end: usize = to;
    while end > from && chars[end - 1] == '0'
        invariant
            from <= end <= to <= chars@.len(),
            trim_trailing_zeros(chars@.subrange(from as int, end as int)) == trim_trailing_zeros(
                chars@.subrange(from as int, to as int),
            ),
        decreases end - from,
    {
        assert(chars@.subrange(from as int, end as int).drop_last() == chars@.subrange(
            from as int,
            end - 1,
        ));
        end -= 1;
    }
    end
}

/// The canonical form of the number literal `text`.
pub fn normalize(text: &[char]) -> (literal: String)
    ensures
        literal@ == canonical_number(text@),
{
    let len = text.len();
    let dot = find_run_end(text, 0, CharClass::Digit);
    let mut literal = String::new();
    if dot == 0 || (dot < len && text[dot] != '.') {
        literal.push('0');
        literal.push('.');
        literal.push('0');
        return literal;
    }
    let fraction_start: usize = if dot < len {
        dot + 1
    } else {
        len
    };
    if find_run_end(text, fraction_start, CharClass::Digit) != len {
        literal.push('0');
        literal.push('.');
        literal.push('0');
        return literal;
    }
    let ghost whole = whole_part(text@);
    let ghost fraction = fraction_part(text@);
    assert(fraction == text@.subrange(fraction_start as int, len as int));
    // The whole part, from its first digit that is not a leading zero.
    let zeros = find_run_end(text, 0, CharClass::Zero);
    proof {
        lemma_run_end(text@, 0, CharClass::Digit);
        lemma_run_end(text@, 0, CharClass::Zero);
        lemma_run_end(whole, 0, CharClass::Zero);
        lemma_zero_run_in_prefix(text@, dot as int);
    }
    if zeros < dot {
        push_range(&mut literal, text, zeros, dot);
        assert(text@.subrange(zeros as int, dot as int) == whole.skip(zeros as int));
    } else {
        literal.push('0');
    }
    assert(literal@ == trim_leading_zeros(whole));
    literal.push('.');
    // The fraction, up to its last digit that is not a trailing zero.
    let fraction_end = trailing_zeros_start(text, fraction_start, len);
    if fraction_end > fraction_start {
        push_range(&mut literal, text, fraction_start, fraction_end);
    } else {
        literal.push('0');
    }
    literal
}

/// The zeros that lead a prefix of digits are the zeros that lead the text,
/// as far as the prefix goes.
proof fn lemma_zero_run_in_prefix(text: Seq<char>, dot: int)
    requires
        0 <= dot <= text.len(),
        dot == run_end(text, 0, CharClass::Digit),
    ensures
        run_end(text.subrange(0, dot), 0, CharClass::Zero) == run_end(text, 0, CharClass::Zero),
        run_end(text, 0, CharClass::Zero) <= dot,
{
    let zeros = run_end(text, 0, CharClass::Zero);
    lemma_run_end(text, 0, CharClass::Zero);
    lemma_run_end(text, 0, CharClass::Digit);
    if zeros > dot {
        assert(CharClass::Zero.has(text[dot]));
        assert(CharClass::Digit.has(text[dot]));
    }
    let prefix = text.subrange(0, dot);
    assert forall|k: int| 0 <= k < zeros implies CharClass::Zero.has(#[trigger] prefix[k]) by {
        assert(CharClass::Zero.has(text[k]));
    }
    lemma_run_end_unique(prefix, 0, CharClass::Zero, zeros);
}

/// Whether all of `digits` are decimal digits.
pub open spec fn all_digits(digits: Seq<char>) -> bool {
    forall|k: int| 0 <= k < digits.len() ==> CharClass::Digit.has(#[trigger] digits[k])
}

/// The number that `digits` spell in base ten; zero for no digits.
pub open spec fn digits_value(digits: Seq<char>) -> nat
    decreases digits.len(),
{
    if digits.len() == 0 {
        0
    } else {
        (digits_value(digits.drop_last()) * 10 + (digits.last() as int - '0' as int)) as nat
    }
}

/// Ten to the power of `n`.
pub open spec fn pow10(n: nat) -> nat
    decreases n,
{
    if n == 0 {
        1
    } else {
        10 * pow10((n - 1) as nat)
    }
}

/// The value of the decimal number with the digits `whole` before the dot
/// and `fraction` behind it, multiplied by ten to the power of `scale`,
/// which is at least the number of digits of `fraction`.
pub open spec fn scaled_value(whole: Seq<char>, fraction: Seq<char>, scale: nat) -> nat {
    digits_value(whole) * pow10(scale) + digits_value(fraction) * pow10(
        (scale - fraction.len()) as nat,
    )
}

/// What is left of `digits` without its trailing zeros is a prefix of it
/// that does not end in zero, and what was cut off is zeros.
pub proof fn lemma_trim_trailing_zeros(digits: Seq<char>)
    ensures
        trim_trailing_zeros(digits).len() <= digits.len(),
        trim_trailing_zeros(digits) == digits.take(trim_trailing_zeros(digits).len() as int),
        trim_trailing_zeros(digits).len() > 0 ==> trim_trailing_zeros(digits).last() != '0',
        forall|k: int|
            trim_trailing_zeros(digits).len() <= k < digits.len() ==> #[trigger] digits[k] == '0',
    decreases digits.len(),
{
    if digits.len() > 0 && digits.last() == '0' {
        let shorter = digits.drop_last();
        lemma_trim_trailing_zeros(shorter);
        let kept = trim_trailing_zeros(shorter);
        assert(shorter.take(kept.len() as int) =~= digits.take(kept.len() as int));
        assert forall|k: int| kept.len() <= k < digits.len() implies #[trigger] digits[k]
            == '0' by {
            if k < shorter.len() {
                assert(shorter[k] == digits[k]);
            }
        }
    } else {
        assert(digits.take(digits.len() as int) =~= digits);
    }
}

/// Zeros in front of digits add nothing to their value.
proof fn lemma_leading_zeros_keep_value(digits: Seq<char>, zeros: int)
    requires
        0 <= zeros <= digits.len(),
        forall|k: int| 0 <= k < zeros ==> #[trigger] digits[k] == '0',
    ensures
        digits_value(digits.skip(zeros)) == digits_value(digits),
    decreases digits.len(),
{
    if zeros == digits.len() {
        assert(digits.skip(zeros) =~= Seq::<char>::empty());
        if digits.len() > 0 {
            lemma_leading_zeros_keep_value(digits.drop_last(), zeros - 1);
            assert(digits.drop_last().skip(zeros - 1) =~= Seq::<char>::empty());
        }
    } else {
        lemma_leading_zeros_keep_value(digits.drop_last(), zeros);
        assert(digits.skip(zeros).drop_last() =~= digits.drop_last().skip(zeros));
        assert(digits.skip(zeros).last() == digits.last());
    }
}

/// Each zero cut off behind digits divides their value by ten.
proof fn lemma_trailing_zeros_scale_value(digits: Seq<char>, scale: nat)
    requires
        scale >= digits.len(),
    ensures
        digits_value(digits) * pow10((scale - digits.len()) as nat) == digits_value(
            trim_trailing_zeros(digits),
        ) * pow10((scale - trim_trailing_zeros(digits).len()) as nat),
    decreases digits.len(),
{
    if digits.len() > 0 && digits.last() == '0' {
        let shorter = digits.drop_last();
        lemma_trailing_zeros_scale_value(shorter, scale);
        lemma_trim_trailing_zeros(shorter);
        let value = digits_value(shorter);
        let power = pow10((scale - digits.len()) as nat);
        assert(digits_value(digits) == value * 10);
        assert(pow10((scale - shorter.len()) as nat) == 10 * power);
        assert((value * 10) * power == value * (10 * power)) by (nonlinear_arith);
    }
}

/// The canonical form of a decimal number is a decimal number in canonical
/// form, with the same value.
/// Its whole part has no leading zero, or is the single digit zero; its
/// fraction has at least one digit and no trailing zero, or is the single
/// digit zero. Whole part and fraction spell the same number as those of
/// `text`: the values agree at every scale that both fractions fit in. And
/// the canonical form of a canonical form is that form itself.
pub proof fn law_canonical_number_keeps_value(text: Seq<char>, scale: nat)
    requires
        is_decimal(text),
        scale >= text.len(),
    ensures
        is_decimal(canonical_number(text)),
        whole_part(canonical_number(text)) == trim_leading_zeros(whole_part(text)),
        whole_part(canonical_number(text)).len() == 1 || whole_part(canonical_number(text))[0]
            != '0',
        fraction_part(canonical_number(text)).len() >= 1,
        fraction_part(canonical_number(text)).len() == 1 || fraction_part(
            canonical_number(text),
        ).last() != '0',
        scaled_value(
            whole_part(canonical_number(text)),
            fraction_part(canonical_number(text)),
            scale,
        ) == scaled_value(whole_part(text), fraction_part(text), scale),
        canonical_number(canonical_number(text)) == canonical_number(text),
{
    let dot = run_end(text, 0, CharClass::Digit);
    lemma_run_end(text, 0, CharClass::Digit);
    let whole = whole_part(text);
    let fraction = fraction_part(text);
    if dot < text.len() {
        lemma_run_end(text, dot + 1, CharClass::Digit);
    }
    assert(all_digits(whole));
    assert(all_digits(fraction)) by {
        assert forall|k: int| 0 <= k < fraction.len() implies CharClass::Digit.has(
            #[trigger] fraction[k],
        ) by {
            assert(fraction[k] == text[dot + 1 + k]);
        }
    }
    // The whole part.
    let zeros = run_end(whole, 0, CharClass::Zero);
    lemma_run_end(whole, 0, CharClass::Zero);
    let new_whole = trim_leading_zeros(whole);
    assert(all_digits(new_whole));
    assert(new_whole.len() == 1 || new_whole[0] != '0');
    assert(digits_value(new_whole) == digits_value(whole)) by {
        lemma_leading_zeros_keep_value(whole, zeros);
        if zeros == whole.len() {
            assert(whole.skip(zeros) =~= Seq::<char>::empty());
            assert(seq!['0'].drop_last() =~= Seq::<char>::empty());
        }
    }
    // The fraction.
    let kept = trim_trailing_zeros(fraction);
    lemma_trim_trailing_zeros(fraction);
    let new_fraction = if kept.len() == 0 {
        seq!['0']
    } else {
        kept
    };
    assert(all_digits(new_fraction)) by {
        assert forall|k: int| 0 <= k < new_fraction.len() implies CharClass::Digit.has(
            #[trigger] new_fraction[k],
        ) by {
            if kept.len() > 0 {
                assert(kept[k] == fraction[k]);
            }
        }
    }
    assert(digits_value(new_fraction) * pow10((scale - new_fraction.len()) as nat)
        == digits_value(fraction) * pow10((scale - fraction.len()) as nat)) by {
        lemma_trailing_zeros_scale_value(fraction, scale);
        if kept.len() == 0 {
            let zero = seq!['0'];
            assert(zero.drop_last() =~= Seq::<char>::empty());
            assert(zero.last() == '0');
            assert(digits_value(zero.drop_last()) == 0);
            assert(digits_value(zero) == 0);
            assert(digits_value(kept) == 0);
            assert(0 * pow10((scale - 1) as nat) == 0 * pow10(scale)) by (nonlinear_arith);
        }
    }
    // The canonical form, taken apart again.
    let form = canonical_number(text);
    assert(form == new_whole + seq!['.'] + new_fraction);
    let new_dot = new_whole.len() as int;
    assert(form[new_dot] == '.');
    assert forall|k: int| 0 <= k < new_dot implies CharClass::Digit.has(#[trigger] form[k]) by {
        assert(form[k] == new_whole[k]);
    }
    lemma_run_end_unique(form, 0, CharClass::Digit, new_dot);
    assert forall|k: int| new_dot + 1 <= k < form.len() implies CharClass::Digit.has(
        #[trigger] form[k],
    ) by {
        assert(form[k] == new_fraction[k - new_dot - 1]);
    }
    lemma_run_end_unique(form, new_dot + 1, CharClass::Digit, form.len() as int);
    assert(whole_part(form) =~= new_whole);
    assert(fraction_part(form) =~= new_fraction);
    // Nothing is left to trim.
    assert(trim_leading_zeros(new_whole) == new_whole) by {
        if new_whole[0] != '0' {
            assert(run_end(new_whole, 0, CharClass::Zero) == 0);
            assert(new_whole.skip(0) =~= new_whole);
        } else {
            assert(new_whole =~= seq!['0']);
            lemma_run_end_unique(new_whole, 0, CharClass::Zero, 1);
        }
    }
    if kept.len() == 0 {
        assert(new_fraction.drop_last() =~= Seq::<char>::empty());
        assert(trim_trailing_zeros(new_fraction.drop_last()) =~= Seq::<char>::empty());
        assert(trim_trailing_zeros(new_fraction).len() == 0);
    } else {
        assert(trim_trailing_zeros(new_fraction) == new_fraction);
    }
}

/// Text that is no decimal number has the canonical form of zero.
pub proof fn law_malformed_number_is_zero(text: Seq<char>)
    requires
        !is_decimal(text),
    ensures
        canonical_number(text) == seq!['0', '.', '0'],
        canonical_number(text) == canonical_number(seq!['0']),
{
    let zero = seq!['0'];
    lemma_run_end_unique(zero, 0, CharClass::Digit, 1);
    lemma_run_end_unique(zero, 0, CharClass::Zero, 1);
    assert(zero.subrange(0, 1) =~= zero);
    assert(trim_leading_zeros(zero) == zero);
    assert(fraction_part(zero) =~= Seq::<char>::empty());
    assert(canonical_number(zero) =~= seq!['0', '.', '0']);
}

} // verus!
