//! Decimal text for the storage format and user-facing messages: rendering
//! integers into strings, reading digit runs back, and the proof that the
//! two are inverses.

use vstd::prelude::*;

verus! {

/// The character for one decimal digit value.
pub open spec fn digit_char(d: nat) -> char {
    if d == 0 {
        '0'
    } else if d == 1 {
        '1'
    } else if d == 2 {
        '2'
    } else if d == 3 {
        '3'
    } else if d == 4 {
        '4'
    } else if d == 5 {
        '5'
    } else if d == 6 {
        '6'
    } else if d == 7 {
        '7'
    } else if d == 8 {
        '8'
    } else {
        '9'
    }
}

/// Whether a character is a decimal digit.
pub open spec fn is_digit_char(c: char) -> bool {
    '0' <= c && c <= '9'
}

/// The value of one digit character.
pub open spec fn char_digit(c: char) -> nat {
    (c as nat - '0' as nat) as nat
}

/// The decimal text of a non-negative integer, most significant digit
/// first, with no leading zero (and `0` rendered as "0").
pub open spec fn spec_udec(n: nat) -> Seq<char>
    decreases n,
{
    if n < 10 {
        seq![digit_char(n)]
    } else {
        spec_udec(n / 10).push(digit_char(n % 10))
    }
}

/// The decimal text of an integer: a minus sign before the magnitude when
/// negative.
pub open spec fn spec_idec(n: int) -> Seq<char> {
    if n < 0 {
        seq!['-'] + spec_udec((-n) as nat)
    } else {
        spec_udec(n as nat)
    }
}

/// The number read from a digit run, most significant digit first.
pub open spec fn spec_digits_val(s: Seq<char>) -> nat
    decreases s.len(),
{
    if s.len() == 0 {
        0
    } else {
        spec_digits_val(s.drop_last()) * 10 + char_digit(s.last())
    }
}

/// A digit run that decimal text can take: non-empty, digits only, and no
/// leading zero unless it is exactly "0".
pub open spec fn wf_digit_run(s: Seq<char>) -> bool {
    &&& s.len() >= 1
    &&& forall|i: int| 0 <= i < s.len() ==> is_digit_char(#[trigger] s[i])
    &&& (s[0] != '0' || s.len() == 1)
}

pub proof fn lemma_udec_wf(n: nat)
    ensures
        wf_digit_run(spec_udec(n)),
        n == 0 <==> spec_udec(n)[0] == '0',
    decreases n,
{
    if n >= 10 {
        lemma_udec_wf(n / 10);
    }
}

proof fn lemma_digits_val_pos(s: Seq<char>)
    requires
        wf_digit_run(s),
        s[0] != '0',
    ensures
        spec_digits_val(s) >= 1,
    decreases s.len(),
{
    if s.len() > 1 {
        assert(s.drop_last()[0] == s[0]);
        lemma_digits_val_pos(s.drop_last());
    }
}

/// Rendering the number read from a well-formed digit run gives back
/// exactly that run: printing is a left inverse of parsing.
pub proof fn lemma_digits_round_trip(s: Seq<char>)
    requires
        wf_digit_run(s),
    ensures
        spec_udec(spec_digits_val(s)) == s,
    decreases s.len(),
{
    if s.len() == 1 {
        assert(s.drop_last() =~= Seq::<char>::empty());
        assert(spec_digits_val(Seq::<char>::empty()) == 0);
        assert(s.last() == s[0]);
        assert(spec_digits_val(s) == char_digit(s[0]));
        assert(char_digit(s[0]) < 10);
        assert(digit_char(char_digit(s[0])) == s[0]);
        assert(spec_udec(char_digit(s[0])) =~= s);
    } else {
        let d = s.drop_last();
        let v = spec_digits_val(d);
        let c = char_digit(s.last());
        assert(d[0] == s[0]);
        lemma_digits_val_pos(d);
        assert(v >= 1);
        assert(spec_digits_val(s) == v * 10 + c);
        assert(v * 10 + c >= 10) by (nonlinear_arith)
            requires
                v >= 1,
                c >= 0,
        ;
        assert((v * 10 + c) / 10 == v && (v * 10 + c) % 10 == c) by (nonlinear_arith)
            requires
                0 <= c < 10,
                v >= 0,
        ;
        lemma_digits_round_trip(d);
        assert(spec_udec(spec_digits_val(s)) =~= s);
    }
}

/// Reading back what rendering produced gives the original number:
/// parsing is a left inverse of printing.
pub proof fn lemma_udec_round_trip(n: nat)
    ensures
        spec_digits_val(spec_udec(n)) == n,
    decreases n,
{
    if n < 10 {
        assert(spec_udec(n) == seq![digit_char(n)]);
        assert(spec_udec(n).drop_last() =~= Seq::<char>::empty());
        assert(spec_digits_val(Seq::<char>::empty()) == 0);
        assert(spec_udec(n).last() == digit_char(n));
        assert(char_digit(digit_char(n)) == n);
    } else {
        lemma_udec_round_trip(n / 10);
        assert(spec_udec(n).drop_last() =~= spec_udec(n / 10));
    }
}

/// Appends the character of one digit value to a string.
fn append_digit(out: &mut String, d: u8)
    requires
        d < 10,
    ensures
        final(out)@ == old(out)@ + seq![digit_char(d as nat)],
{
    let table = "0123456789";
    proof {
        reveal_strlit("0123456789");
    }
    let piece = table.substring_ascii(d as usize, d as usize + 1);
    out.append(piece);
    proof {
        assert(piece@ =~= seq![digit_char(d as nat)]);
    }
}

/// Appends the decimal text of a non-negative number to a string.
pub fn append_decimal_u128(out: &mut String, n: u128)
    ensures
        final(out)@ == old(out)@ + spec_udec(n as nat),
    decreases n,
{
    if n < 10 {
        append_digit(out, n as u8);
    } else {
        append_decimal_u128(out, n / 10);
        append_digit(out, (n % 10) as u8);
        proof {
            assert(old(out)@ + spec_udec((n / 10) as nat) + seq![
                digit_char((n % 10) as nat),
            ] =~= old(out)@ + spec_udec(n as nat));
        }
    }
}

/// Appends the decimal text of a signed number to a string.
pub fn append_decimal_i64(out: &mut String, n: i64)
    ensures
        final(out)@ == old(out)@ + spec_idec(n as int),
{
    if n < 0 {
        let ghost before = out@;
        out.append("-");
        let magnitude: u128 = (-(n as i128)) as u128;
        append_decimal_u128(out, magnitude);
        proof {
            reveal_strlit("-");
            assert("-"@ =~= seq!['-']);
            assert(before + seq!['-'] + spec_udec(magnitude as nat) =~= before + spec_idec(
                n as int,
            ));
        }
    } else {
        append_decimal_u128(out, n as u128);
    }
}

/// Appends the decimal text of a pointer coordinate or wheel delta.
pub fn append_decimal_i32(out: &mut String, n: i32)
    ensures
        final(out)@ == old(out)@ + spec_idec(n as int),
{
    append_decimal_i64(out, n as i64);
}

} // verus!
