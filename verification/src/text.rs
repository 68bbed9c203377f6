//! Character-level text helpers shared by the diff/patch engine: conversions
//! between `String` and `Vec<char>`, and decimal formatting of lengths and
//! positions inside the textual patch encoding.

use vstd::prelude::*;

verus! {

/// Appends one character to a string.
///
/// Relies on `String::push` from std: it appends the given `char` to the end
/// of the string.
#[verifier::external_body]
pub fn push_char(s: &mut String, c: char)
    ensures
        final(s)@ == old(s)@.push(c),
{
    s.push(c);
}

/// The characters of `s`, in order.
pub fn str_to_chars(s: &str) -> (v: Vec<char>)
    ensures
        v@ == s@,
{
    let n = s.unicode_len();
    let mut v: Vec<char> = Vec::new();
    let mut i: usize = 0;
    while i < n
        invariant
            n == s@.len(),
            i <= n,
            v@ == s@.take(i as int),
        decreases n - i,
    {
        v.push(s.get_char(i));
        proof {
            assert(s@.take(i + 1) == s@.take(i as int).push(s@[i as int]));
        }
        i = i + 1;
    }
    proof {
        assert(s@.take(n as int) == s@);
    }
    v
}

/// The string holding `v[from..to]`.
pub fn chars_range_to_string(v: &Vec<char>, from: usize, to: usize) -> (s: String)
    requires
        from <= to <= v@.len(),
    ensures
        s@ == v@.subrange(from as int, to as int),
{
    let mut s = String::new();
    let mut i: usize = from;
    while i < to
        invariant
            from <= i <= to <= v@.len(),
            s@ == v@.subrange(from as int, i as int),
        decreases to - i,
    {
        push_char(&mut s, v[i]);
        proof {
            assert(v@.subrange(from as int, i + 1) == v@.subrange(from as int, i as int).push(
                v@[i as int],
            ));
        }
        i = i + 1;
    }
    s
}

/// The string holding all of `v`.
pub fn chars_to_string(v: &Vec<char>) -> (s: String)
    ensures
        s@ == v@,
{
    let s = chars_range_to_string(v, 0, v.len());
    proof {
        assert(v@.subrange(0, v@.len() as int) == v@);
    }
    s
}

/// Whether `c` is a decimal digit.
pub open spec fn spec_is_digit(c: char) -> bool {
    '0' <= c && c <= '9'
}

/// The numeric value of a digit character (meaningful only for digits).
pub open spec fn spec_digit_val(c: char) -> nat {
    ((c as int) - ('0' as int)) as nat
}

/// The digit character for `d` (meaningful only for `d < 10`).
pub open spec fn spec_digit_char(d: nat) -> char {
    seq!['0', '1', '2', '3', '4', '5', '6', '7', '8', '9'][d as int]
}

/// Decimal digits of `n`, most significant first, without leading zeros.
pub open spec fn spec_dec(n: nat) -> Seq<char>
    decreases n,
{
    if n < 10 {
        seq![spec_digit_char(n)]
    } else {
        spec_dec(n / 10).push(spec_digit_char(n % 10))
    }
}

/// The value of a digit sequence read as a decimal number.
pub open spec fn spec_dec_val(s: Seq<char>) -> nat
    decreases s.len(),
{
    if s.len() == 0 {
        0
    } else {
        spec_dec_val(s.drop_last()) * 10 + spec_digit_val(s.last())
    }
}

/// Whether every character of `s` is a decimal digit.
pub open spec fn spec_all_digits(s: Seq<char>) -> bool {
    forall|i: int| 0 <= i < s.len() ==> spec_is_digit(#[trigger] s[i])
}

pub proof fn lemma_digit_char_val(d: nat)
    requires
        d < 10,
    ensures
        spec_is_digit(spec_digit_char(d)),
        spec_digit_val(spec_digit_char(d)) == d,
{
    if d == 0 {
        assert(spec_digit_char(d) == '0');
    } else if d == 1 {
        assert(spec_digit_char(d) == '1');
    } else if d == 2 {
        assert(spec_digit_char(d) == '2');
    } else if d == 3 {
        assert(spec_digit_char(d) == '3');
    } else if d == 4 {
        assert(spec_digit_char(d) == '4');
    } else if d == 5 {
        assert(spec_digit_char(d) == '5');
    } else if d == 6 {
        assert(spec_digit_char(d) == '6');
    } else if d == 7 {
        assert(spec_digit_char(d) == '7');
    } else if d == 8 {
        assert(spec_digit_char(d) == '8');
    } else {
        assert(spec_digit_char(d) == '9');
    }
}

/// The decimal digits of `n` are digits, there is at least one of them, and
/// reading them back as a number yields `n`.
pub proof fn lemma_spec_dec_value(n: nat)
    ensures
        spec_dec(n).len() >= 1,
        spec_all_digits(spec_dec(n)),
        spec_dec_val(spec_dec(n)) == n,
    decreases n,
{
    if n < 10 {
        lemma_digit_char_val(n);
        let s = spec_dec(n);
        assert(s == seq![spec_digit_char(n)]);
        assert(s.drop_last() =~= Seq::<char>::empty());
        assert(s.last() == spec_digit_char(n));
        assert(spec_dec_val(s) == spec_dec_val(s.drop_last()) * 10 + spec_digit_val(s.last()));
        assert(spec_dec_val(s.drop_last()) == 0);
    } else {
        lemma_spec_dec_value(n / 10);
        lemma_digit_char_val(n % 10);
        let s = spec_dec(n / 10).push(spec_digit_char(n % 10));
        assert(s.drop_last() =~= spec_dec(n / 10));
        assert(s.last() == spec_digit_char(n % 10));
        assert(spec_dec_val(s) == (n / 10) * 10 + n % 10);
        assert((n / 10) * 10 + n % 10 == n) by (nonlinear_arith);
    }
}

/// The digit character for `d`.
pub fn digit_char(d: usize) -> (c: char)
    requires
        d < 10,
    ensures
        c == spec_digit_char(d as nat),
{
    match d {
        0 => '0',
        1 => '1',
        2 => '2',
        3 => '3',
        4 => '4',
        5 => '5',
        6 => '6',
        7 => '7',
        8 => '8',
        _ => '9',
    }
}

/// Appends the decimal digits of `n` to `s`.
pub fn append_dec(s: &mut String, n: usize)
    ensures
        final(s)@ == old(s)@ + spec_dec(n as nat),
    decreases n,
{
    if n < 10 {
        push_char(s, digit_char(n));
        proof {
            assert(old(s)@ + spec_dec(n as nat) =~= old(s)@.push(spec_digit_char(n as nat)));
        }
    } else {
        append_dec(s, n / 10);
        push_char(s, digit_char(n % 10));
        proof {
            assert(old(s)@ + spec_dec(n as nat) =~= (old(s)@ + spec_dec(n as nat / 10)).push(
                spec_digit_char(n as nat % 10),
            ));
        }
    }
}

/// Whether `c` is a decimal digit.
pub fn is_digit(c: char) -> (b: bool)
    ensures
        b == spec_is_digit(c),
{
    '0' <= c && c <= '9'
}

/// The numeric value of the digit `c`.
pub fn digit_val(c: char) -> (d: usize)
    requires
        spec_is_digit(c),
    ensures
        d == spec_digit_val(c),
        d < 10,
{
    (c as u32 as usize) - ('0' as u32 as usize)
}

} // verus!
