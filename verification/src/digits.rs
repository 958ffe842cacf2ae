//! Decimal digits: rendering numbers as character sequences and reading
//! numeric pieces back, with exact round-trip lemmas.

use vstd::prelude::*;
use crate::chars::{check_digit, is_digit};

verus! {

/// The character for a single decimal digit value.
pub open spec fn digit_char(d: int) -> char {
    if d == 0 {
        '0'
    } else if d == 1 {
        '1'
    } else if d == 2 {
        '2'
    } else if d == 3 {
        '3'
    } else if d == 4 {
        '4'
    } else if d == 5 {
        '5'
    } else if d == 6 {
        '6'
    } else if d == 7 {
        '7'
    } else if d == 8 {
        '8'
    } else {
        '9'
    }
}

/// The numeric value of a decimal digit character.
pub open spec fn digit_val(c: char) -> int {
    (c as u32) - ('0' as u32)
}

/// The decimal rendering of `n`, most significant digit first.
pub open spec fn dec_seq(n: nat) -> Seq<char>
    decreases n,
{
    if n < 10 {
        seq![digit_char(n as int)]
    } else {
        dec_seq(n / 10).push(digit_char((n % 10) as int))
    }
}

/// The value of a digit string read left to right; meaningful only when
/// every character is a digit.
pub open spec fn digits_val(p: Seq<char>) -> int
    decreases p.len(),
{
    if p.len() == 0 {
        0
    } else {
        digits_val(p.drop_last()) * 10 + digit_val(p.last())
    }
}

/// Whether a piece reads as a `u32`: nonempty, all digits, and in range.
pub open spec fn piece_parses(p: Seq<char>) -> bool {
    &&& p.len() > 0
    &&& forall|i: int| 0 <= i < p.len() ==> is_digit(#[trigger] p[i])
    &&& digits_val(p) <= u32::MAX
}

/// A digit string has a nonnegative value.
pub proof fn lemma_digits_val_nonneg(p: Seq<char>)
    requires
        forall|i: int| 0 <= i < p.len() ==> is_digit(#[trigger] p[i]),
    ensures
        digits_val(p) >= 0,
    decreases p.len(),
{
    if p.len() > 0 {
        lemma_digits_val_nonneg(p.drop_last());
    }
}

/// Extending an all-digit prefix can only increase its value.
pub proof fn lemma_digits_val_prefix_le(p: Seq<char>, i: int, j: int)
    requires
        0 <= i <= j <= p.len(),
        forall|k: int| 0 <= k < p.len() ==> is_digit(#[trigger] p[k]),
    ensures
        digits_val(p.take(i)) <= digits_val(p.take(j)),
    decreases j - i,
{
    if i < j {
        lemma_digits_val_prefix_le(p, i, j - 1);
        let q = p.take(j);
        assert(q.drop_last() =~= p.take(j - 1));
        lemma_digits_val_nonneg(p.take(j - 1));
        assert(digits_val(q) == digits_val(p.take(j - 1)) * 10 + digit_val(p[j - 1]));
        assert(is_digit(p[j - 1]));
        assert(digit_val(p[j - 1]) >= 0);
        assert(digits_val(p.take(j - 1)) * 10 >= digits_val(p.take(j - 1)));
    }
}

/// The decimal rendering of `n` consists of digits and reads back as `n`.
pub proof fn lemma_dec_seq_val(n: nat)
    ensures
        dec_seq(n).len() > 0,
        forall|i: int| 0 <= i < dec_seq(n).len() ==> is_digit(#[trigger] dec_seq(n)[i]),
        digits_val(dec_seq(n)) == n,
    decreases n,
{
    if n < 10 {
        assert(is_digit(digit_char(n as int)));
        assert(digit_val(digit_char(n as int)) == n);
        assert(dec_seq(n).drop_last() =~= Seq::<char>::empty());
        assert(digits_val(Seq::<char>::empty()) == 0);
        assert(digits_val(dec_seq(n)) == digits_val(dec_seq(n).drop_last()) * 10 + digit_val(
            dec_seq(n).last(),
        ));
    } else {
        lemma_dec_seq_val(n / 10);
        let s = dec_seq(n);
        assert(s.drop_last() =~= dec_seq(n / 10));
        assert(s.last() == digit_char((n % 10) as int));
        assert(digit_val(digit_char((n % 10) as int)) == n % 10);
        assert(digits_val(s) == (n / 10) * 10 + n % 10);
        assert((n / 10) * 10 + n % 10 == n) by {
            vstd::arithmetic::div_mod::lemma_fundamental_div_mod(n as int, 10);
        }
    }
}

/// The decimal rendering never contains a dot.
pub proof fn lemma_dec_seq_no_dot(n: nat)
    ensures
        forall|i: int| 0 <= i < dec_seq(n).len() ==> #[trigger] dec_seq(n)[i] != '.',
    decreases n,
{
    if n < 10 {
        assert(dec_seq(n) =~= seq![digit_char(n as int)]);
        assert(digit_char(n as int) != '.');
    } else {
        lemma_dec_seq_no_dot(n / 10);
        assert(dec_seq(n) =~= dec_seq(n / 10).push(digit_char((n % 10) as int)));
        assert(digit_char((n % 10) as int) != '.');
    }
}

/// Executable mirror of [`digit_char`] for digit values `0..=9`.
pub fn digit_char_of(d: u32) -> (r: char)
    requires
        d < 10,
    ensures
        r == digit_char(d as int),
{
    match d {
        0 => '0',
        1 => '1',
        2 => '2',
        3 => '3',
        4 => '4',
        5 => '5',
        6 => '6',
        7 => '7',
        8 => '8',
        _ => '9',
    }
}

/// Appends the decimal rendering of `n` to a character vector.
pub fn push_decimal(n: u32, out: &mut Vec<char>)
    ensures
        final(out)@ == old(out)@ + dec_seq(n as nat),
    decreases n,
{
    if n >= 10 {
        push_decimal(n / 10, out);
    }
    out.push(digit_char_of(n % 10));
    proof {
        if n < 10 {
            assert(old(out)@ + dec_seq(n as nat) =~= old(out)@.push(digit_char(n as int)));
        } else {
            assert(old(out)@ + dec_seq(n as nat) =~= (old(out)@ + dec_seq((n / 10) as nat)).push(
                digit_char((n % 10) as int),
            ));
        }
    }
}

/// A one-character string for a single decimal digit value.
pub fn digit_str(d: u32) -> (r: &'static str)
    requires
        d < 10,
    ensures
        r@ =~= seq![digit_char(d as int)],
{
    proof {
        reveal_strlit("0");
        reveal_strlit("1");
        reveal_strlit("2");
        reveal_strlit("3");
        reveal_strlit("4");
        reveal_strlit("5");
        reveal_strlit("6");
        reveal_strlit("7");
        reveal_strlit("8");
        reveal_strlit("9");
    }
    match d {
        0 => "0",
        1 => "1",
        2 => "2",
        3 => "3",
        4 => "4",
        5 => "5",
        6 => "6",
        7 => "7",
        8 => "8",
        _ => "9",
    }
}

/// Appends the decimal rendering of `n` to a string.
pub fn append_decimal(n: u32, out: &mut String)
    ensures
        final(out)@ == old(out)@ + dec_seq(n as nat),
    decreases n,
{
    if n >= 10 {
        append_decimal(n / 10, out);
    }
    out.append(digit_str(n % 10));
    proof {
        if n < 10 {
            assert(old(out)@ + dec_seq(n as nat) =~= old(out)@.push(digit_char(n as int)));
        } else {
            assert(old(out)@ + dec_seq(n as nat) =~= (old(out)@ + dec_seq((n / 10) as nat)).push(
                digit_char((n % 10) as int),
            ));
        }
    }
}

/// Reads a piece as a `u32`; `None` when the piece is empty, has a
/// non-digit character, or exceeds `u32::MAX`.
pub fn parse_piece(p: &Vec<char>) -> (r: Option<u32>)
    ensures
        piece_parses(p@) ==> r == Some((digits_val(p@) as u32)),
        !piece_parses(p@) ==> r is None,
{
    if p.len() == 0 {
        return None;
    }
    let mut val: u32 = 0;
    let mut i: usize = 0;
    while i < p.len()
        invariant
            i <= p@.len(),
            forall|k: int| 0 <= k < i ==> is_digit(#[trigger] p@[k]),
            val == digits_val(p@.take(i as int)),
        decreases p@.len() - i,
    {
        let c = p[i];
        if !check_digit(c) {
            return None;
        }
        let d: u32 = (c as u32) - 48;
        proof {
            assert(d == digit_val(c));
            assert(p@.take(i + 1).drop_last() =~= p@.take(i as int));
            assert(digits_val(p@.take(i + 1)) == digits_val(p@.take(i as int)) * 10 + digit_val(
                c,
            ));
        }
        if val > (u32::MAX - d) / 10 {
            proof {
                assert(val * 10 + d > u32::MAX) by (nonlinear_arith)
                    requires
                        val > (u32::MAX - d) / 10,
                        d < 10,
                ;
                if forall|k: int| 0 <= k < p@.len() ==> is_digit(#[trigger] p@[k]) {
                    lemma_digits_val_prefix_le(p@, i + 1, p@.len() as int);
                    assert(p@.take(p@.len() as int) =~= p@);
                }
            }
            return None;
        }
        proof {
            assert(val * 10 + d <= u32::MAX) by (nonlinear_arith)
                requires
                    val <= (u32::MAX - d) / 10,
                    d < 10,
            ;
        }
        val = val * 10 + d;
        i = i + 1;
    }
    proof {
        assert(p@.take(p@.len() as int) =~= p@);
        lemma_digits_val_nonneg(p@);
    }
    Some(val)
}

} // verus!
