//! Decimal digit sequences: their numeric value, the rendering of a number
//! as digits, and the scanner that finds a run of digits in a string.

use vstd::prelude::*;
use vstd::string::StrSliceExecFns;
use vstd::string::StringExecFns;

verus! {

/// A decimal digit character.
pub open spec fn is_digit(c: char) -> bool {
    48 <= c as int && c as int <= 57
}

/// Numeric value of a digit character.
pub open spec fn digit_val(c: char) -> int {
    c as int - 48
}

/// The digit character for d, 0 through 9.
pub open spec fn digit_char(d: int) -> char {
    if d == 0 {
        '0'
    } else if d == 1 {
        '1'
    } else if d == 2 {
        '2'
    } else if d == 3 {
        '3'
    } else if d == 4 {
        '4'
    } else if d == 5 {
        '5'
    } else if d == 6 {
        '6'
    } else if d == 7 {
        '7'
    } else if d == 8 {
        '8'
    } else {
        '9'
    }
}

/// The decimal digits of n, most significant first; a single '0' for zero.
pub open spec fn dec_digits(n: nat) -> Seq<char>
    decreases n,
{
    if n < 10 {
        seq![digit_char(n as int)]
    } else {
        dec_digits(n / 10) + seq![digit_char((n % 10) as int)]
    }
}

/// The number a digit sequence denotes in decimal.
pub open spec fn digits_val(s: Seq<char>) -> int
    decreases s.len(),
{
    if s.len() == 0 {
        0
    } else {
        digits_val(s.drop_last()) * 10 + digit_val(s.last())
    }
}

/// The first position at or after `from` that does not hold a digit.
pub open spec fn digits_end(s: Seq<char>, from: int) -> int
    decreases s.len() - from,
{
    if from < s.len() && is_digit(s[from]) {
        digits_end(s, from + 1)
    } else {
        from
    }
}

/// Rendering a number gives at least one character, all of them digits,
/// and reading them back yields the number.
pub proof fn lemma_dec_digits(n: nat)
    ensures
        dec_digits(n).len() >= 1,
        forall|i: int| 0 <= i < dec_digits(n).len() ==> is_digit(#[trigger] dec_digits(n)[i]),
        digits_val(dec_digits(n)) == n,
    decreases n,
{
    if n < 10 {
        assert(seq![digit_char(n as int)].drop_last() =~= Seq::<char>::empty());
        assert(digits_val(Seq::<char>::empty()) == 0);
        assert(digit_val(digit_char(n as int)) == n);
        assert(digits_val(dec_digits(n)) == n);
    } else {
        lemma_dec_digits(n / 10);
        let whole = dec_digits(n / 10) + seq![digit_char((n % 10) as int)];
        assert(whole.drop_last() =~= dec_digits(n / 10));
        assert(whole.last() == digit_char((n % 10) as int));
        assert(digit_val(digit_char((n % 10) as int)) == n % 10);
        assert(digits_val(whole) == (n / 10) * 10 + n % 10);
        vstd::arithmetic::div_mod::lemma_fundamental_div_mod(n as int, 10);
        assert(forall|i: int|
            0 <= i < whole.len() ==> is_digit(#[trigger] whole[i]));
    }
}

/// `digits_end` lands exactly where the digits stop.
pub proof fn lemma_digits_end_is(s: Seq<char>, from: int, e: int)
    requires
        0 <= from <= e <= s.len(),
        forall|j: int| from <= j < e ==> is_digit(#[trigger] s[j]),
        e == s.len() || !is_digit(s[e]),
    ensures
        digits_end(s, from) == e,
    decreases e - from,
{
    if from < e {
        lemma_digits_end_is(s, from + 1, e);
    }
}

/// A digit sequence denotes a non-negative number.
pub proof fn lemma_digits_val_nonneg(s: Seq<char>)
    requires
        forall|j: int| 0 <= j < s.len() ==> is_digit(#[trigger] s[j]),
    ensures
        digits_val(s) >= 0,
    decreases s.len(),
{
    if s.len() > 0 {
        lemma_digits_val_nonneg(s.drop_last());
    }
}

/// Extending a digit sequence never lowers its value.
pub proof fn lemma_digits_val_prefix_le(s: Seq<char>, k: int)
    requires
        0 <= k <= s.len(),
        forall|j: int| 0 <= j < s.len() ==> is_digit(#[trigger] s[j]),
    ensures
        digits_val(s.subrange(0, k)) <= digits_val(s),
    decreases s.len() - k,
{
    if k < s.len() {
        lemma_digits_val_prefix_le(s, k + 1);
        let shorter = s.subrange(0, k);
        let longer = s.subrange(0, k + 1);
        assert(longer.drop_last() =~= shorter);
        assert(forall|j: int| 0 <= j < shorter.len() ==> is_digit(#[trigger] shorter[j]));
        lemma_digits_val_nonneg(shorter);
    } else {
        assert(s.subrange(0, k) =~= s);
    }
}

/// True when the character at index i of s is a decimal digit.
pub(crate) fn is_digit_at(s: &str, i: usize) -> (b: bool)
    requires
        i < s@.len(),
    ensures
        b == is_digit(s@[i as int]),
{
    let c = s.get_char(i);
    48 <= c as u32 && c as u32 <= 57
}

/// Index of the first non-digit at or after `from`.
pub(crate) fn scan_digits(s: &str, n: usize, from: usize) -> (e: usize)
    requires
        n == s@.len(),
        from <= n,
    ensures
        from <= e <= n,
        e as int == digits_end(s@, from as int),
        forall|j: int| from <= j < e ==> is_digit(#[trigger] s@[j]),
        e < n ==> !is_digit(s@[e as int]),
{
    let mut i = from;
    while i < n && is_digit_at(s, i)
        invariant
            from <= i <= n,
            n == s@.len(),
            forall|j: int| from <= j < i ==> is_digit(#[trigger] s@[j]),
        decreases n - i,
    {
        i = i + 1;
    }
    proof {
        lemma_digits_end_is(s@, from as int, i as int);
    }
    i
}

/// Reads the digits in s[start..end) as a decimal number, refusing one
/// that exceeds `bound`.
pub(crate) fn parse_digits_bounded(s: &str, start: usize, end: usize, bound: u32) -> (r: Option<
    u32,
>)
    requires
        start <= end <= s@.len(),
        bound <= 0xFFFF,
        forall|j: int| start <= j < end ==> is_digit(#[trigger] s@[j]),
    ensures
        match r {
            Some(v) => v as int == digits_val(s@.subrange(start as int, end as int)) && v
                <= bound,
            None => digits_val(s@.subrange(start as int, end as int)) > bound,
        },
{
    let ghost whole = s@.subrange(start as int, end as int);
    let mut acc: u32 = 0;
    let mut i = start;
    while i < end
        invariant
            start <= i <= end <= s@.len(),
            bound <= 0xFFFF,
            acc <= bound,
            forall|j: int| start <= j < end ==> is_digit(#[trigger] s@[j]),
            whole == s@.subrange(start as int, end as int),
            acc as int == digits_val(s@.subrange(start as int, i as int)),
        decreases end - i,
    {
        let c = s.get_char(i);
        assert(is_digit(s@[i as int]));
        let d = c as u32 - 48;
        let acc2 = acc * 10 + d;
        proof {
            let prefix = s@.subrange(start as int, i as int);
            let extended = s@.subrange(start as int, i as int + 1);
            assert(extended.drop_last() =~= prefix);
            assert(extended.last() == s@[i as int]);
        }
        if acc2 > bound {
            proof {
                assert(forall|j: int| 0 <= j < whole.len() ==> is_digit(#[trigger] whole[j]));
                lemma_digits_val_prefix_le(whole, i as int + 1 - start);
                assert(whole.subrange(0, i as int + 1 - start) =~= s@.subrange(
                    start as int,
                    i as int + 1,
                ));
            }
            return None;
        }
        acc = acc2;
        i = i + 1;
    }
    assert(s@.subrange(start as int, i as int) =~= s@.subrange(start as int, end as int));
    Some(acc)
}

/// The one-character string for digit d.
pub(crate) fn digit_str(d: u16) -> (r: &'static str)
    requires
        d < 10,
    ensures
        r@ =~= seq![digit_char(d as int)],
{
    proof {
        reveal_strlit("0");
        reveal_strlit("1");
        reveal_strlit("2");
        reveal_strlit("3");
        reveal_strlit("4");
        reveal_strlit("5");
        reveal_strlit("6");
        reveal_strlit("7");
        reveal_strlit("8");
        reveal_strlit("9");
    }
    if d == 0 {
        "0"
    } else if d == 1 {
        "1"
    } else if d == 2 {
        "2"
    } else if d == 3 {
        "3"
    } else if d == 4 {
        "4"
    } else if d == 5 {
        "5"
    } else if d == 6 {
        "6"
    } else if d == 7 {
        "7"
    } else if d == 8 {
        "8"
    } else {
        "9"
    }
}

/// The decimal rendering of n.
pub(crate) fn dec_string(n: u16) -> (r: String)
    ensures
        r@ == dec_digits(n as nat),
    decreases n,
{
    if n < 10 {
        digit_str(n).to_owned()
    } else {
        let mut r = dec_string(n / 10);
        r.append(digit_str(n % 10));
        assert(r@ =~= dec_digits(n as nat));
        r
    }
}

} // verus!
