//! Decimal digits: the numeric value of a digit string, the canonical
//! decimal rendering of a number, and a verified formatter producing it.

use vstd::prelude::*;

verus! {

/// True of the characters `'0'` through `'9'`.
pub open spec fn is_digit_char(c: char) -> bool {
    '0' <= c && c <= '9'
}

/// Numeric value of one digit character.
pub open spec fn digit_val(c: char) -> nat
    recommends
        is_digit_char(c),
{
    (c as int - '0' as int) as nat
}

/// True when every character of `ds` is a decimal digit.
pub open spec fn all_digits(ds: Seq<char>) -> bool {
    forall|i: int| 0 <= i < ds.len() ==> is_digit_char(#[trigger] ds[i])
}

/// Value of a digit string read in base ten; the empty string has value 0.
pub open spec fn digits_val(ds: Seq<char>) -> nat
    decreases ds.len(),
{
    if ds.len() == 0 {
        0
    } else {
        digits_val(ds.drop_last()) * 10 + digit_val(ds.last())
    }
}

/// The digit character for a value below ten.
pub open spec fn digit_char_of(d: nat) -> char
    recommends
        d < 10,
{
    if d == 0 {
        '0'
    } else if d == 1 {
        '1'
    } else if d == 2 {
        '2'
    } else if d == 3 {
        '3'
    } else if d == 4 {
        '4'
    } else if d == 5 {
        '5'
    } else if d == 6 {
        '6'
    } else if d == 7 {
        '7'
    } else if d == 8 {
        '8'
    } else {
        '9'
    }
}

/// Canonical decimal rendering of `n`: no sign, no leading zero except for
/// `n == 0` itself.
pub open spec fn spec_decimal(n: nat) -> Seq<char>
    decreases n,
{
    if n < 10 {
        seq![digit_char_of(n)]
    } else {
        spec_decimal(n / 10).push(digit_char_of(n % 10))
    }
}

/// The digit character for a value below ten reads back as that value.
pub proof fn lemma_digit_char_val(d: nat)
    requires
        d < 10,
    ensures
        is_digit_char(digit_char_of(d)),
        digit_val(digit_char_of(d)) == d,
{
}

/// Appending a digit multiplies the value by ten and adds the digit.
pub proof fn lemma_digits_val_push(ds: Seq<char>, c: char)
    ensures
        digits_val(ds.push(c)) == digits_val(ds) * 10 + digit_val(c),
{
    assert(ds.push(c).drop_last() =~= ds);
    assert(ds.push(c).last() == c);
}

/// The canonical rendering is a non-empty string of digits.
pub proof fn lemma_spec_decimal_wf(n: nat)
    ensures
        spec_decimal(n).len() >= 1,
        all_digits(spec_decimal(n)),
    decreases n,
{
    if n < 10 {
    } else {
        lemma_spec_decimal_wf(n / 10);
        assert(spec_decimal(n) == spec_decimal(n / 10).push(digit_char_of(n % 10)));
    }
}

/// Reading the canonical rendering back gives the number itself.
pub proof fn lemma_spec_decimal_val(n: nat)
    ensures
        digits_val(spec_decimal(n)) == n,
    decreases n,
{
    if n < 10 {
        lemma_digit_char_val(n);
        let ds = seq![digit_char_of(n)];
        assert(ds.drop_last() =~= Seq::<char>::empty());
        assert(digits_val(ds.drop_last()) == 0);
        assert(digits_val(ds) == 0 * 10 + digit_val(digit_char_of(n)));
    } else {
        lemma_spec_decimal_val(n / 10);
        lemma_digit_char_val(n % 10);
        lemma_digits_val_push(spec_decimal(n / 10), digit_char_of(n % 10));
        assert(digits_val(spec_decimal(n)) == (n / 10) * 10 + n % 10);
    }
}

/// Renders `n` in decimal, matching the canonical spec-level rendering.
pub fn format_decimal(n: usize) -> (r: String)
    ensures
        r@ == spec_decimal(n as nat),
    decreases n,
{
    proof {
        reveal_strlit("0123456789");
    }
    let table: &str = "0123456789";
    assert(table.is_ascii()) by {
        assert(forall|i: int| 0 <= i < table@.len() ==> '\0' <= #[trigger] table@[i] <= '\u{7f}');
    }
    let d: usize = n % 10;
    let digit: &str = table.substring_ascii(d, d + 1);
    assert(digit@ =~= seq![digit_char_of((n as nat) % 10)]);
    if n < 10 {
        let r = digit.to_owned();
        assert(r@ =~= spec_decimal(n as nat));
        r
    } else {
        let mut s = format_decimal(n / 10);
        s.append(digit);
        assert(s@ =~= spec_decimal(n as nat));
        s
    }
}

} // verus!
