//! The storage text of an `Action`: a flat object with a `type` tag naming
//! the variant and the variant's fields, exactly the shape the event table
//! persists. Encoding and decoding are verified inverses on well-formed
//! actions.

use vstd::prelude::*;
use crate::action::{Action, ActionAbs, MouseButton};
use crate::decimal::{
    append_decimal_i32, char_digit, is_digit_char, lemma_digits_round_trip,
    lemma_udec_round_trip, lemma_udec_wf, spec_digits_val, spec_idec, spec_udec, wf_digit_run,
};

verus! {

/// A character that may stand inside a stored key label: printable ASCII,
/// with the two characters that would disturb the quoting left out.
pub open spec fn wf_key_char(c: char) -> bool {
    32 <= c as int <= 126 && c != '"' && c != '\\'
}

/// A key label the storage text can carry: plain characters only.
pub open spec fn wf_key(key: Seq<char>) -> bool {
    forall|i: int| 0 <= i < key.len() ==> wf_key_char(#[trigger] key[i])
}

/// An abstract action the storage text can carry: coordinates within the
/// pointer range and a key label of plain characters.
pub open spec fn wf_action(a: ActionAbs) -> bool {
    match a {
        ActionAbs::MouseMove { x, y } => in_i32(x) && in_i32(y),
        ActionAbs::MouseDown { button, x, y } => in_i32(x) && in_i32(y),
        ActionAbs::MouseUp { button, x, y } => in_i32(x) && in_i32(y),
        ActionAbs::Wheel { delta_x, delta_y, x, y } => in_i32(delta_x) && in_i32(delta_y)
            && in_i32(x) && in_i32(y),
        ActionAbs::KeyPress { key } => wf_key(key),
    }
}

pub open spec fn in_i32(n: int) -> bool {
    i32::MIN <= n <= i32::MAX
}

/// The name a pointer button is stored under.
pub open spec fn button_name(b: MouseButton) -> Seq<char> {
    match b {
        MouseButton::Left => "Left"@,
        MouseButton::Right => "Right"@,
        MouseButton::Middle => "Middle"@,
    }
}

/// The storage text of an abstract action.
pub open spec fn spec_encode(a: ActionAbs) -> Seq<char> {
    match a {
        ActionAbs::MouseMove { x, y } => "{\"type\":\"mouse_move\",\"x\":"@ + spec_idec(x)
            + ",\"y\":"@ + spec_idec(y) + "}"@,
        ActionAbs::MouseDown { button, x, y } => "{\"type\":\"mouse_down\",\"button\":\""@
            + button_name(button) + "\",\"x\":"@ + spec_idec(x) + ",\"y\":"@ + spec_idec(y)
            + "}"@,
        ActionAbs::MouseUp { button, x, y } => "{\"type\":\"mouse_up\",\"button\":\""@
            + button_name(button) + "\",\"x\":"@ + spec_idec(x) + ",\"y\":"@ + spec_idec(y)
            + "}"@,
        ActionAbs::Wheel { delta_x, delta_y, x, y } => "{\"type\":\"wheel\",\"delta_x\":"@
            + spec_idec(delta_x) + ",\"delta_y\":"@ + spec_idec(delta_y) + ",\"x\":"@
            + spec_idec(x) + ",\"y\":"@ + spec_idec(y) + "}"@,
        ActionAbs::KeyPress { key } => "{\"type\":\"key_press\",\"key\":\""@ + key + "\"}"@,
    }
}

/// Whether an action can be stored: true but for a key label holding a
/// character outside the plain range.
pub fn action_is_wf(a: &Action) -> (r: bool)
    ensures
        r == wf_action(a@),
{
    match a {
        Action::KeyPress { key } => {
            let k: &str = key.as_str();
            let n = k.unicode_len();
            let mut i: usize = 0;
            while i < n
                invariant
                    a@ == (ActionAbs::KeyPress { key: k@ }),
                    n == k@.len(),
                    0 <= i <= n,
                    forall|j: int| 0 <= j < i ==> wf_key_char(#[trigger] k@[j]),
                decreases n - i,
            {
                let c = k.get_char(i);
                let u = c as u32;
                if !(32 <= u && u <= 126 && c != '"' && c != '\\') {
                    proof {
                        assert(!wf_key_char(k@[i as int]));
                        assert(!wf_key(k@));
                    }
                    return false;
                }
                i += 1;
            }
            true
        },
        _ => true,
    }
}

/// Renders a pointer button's stored name.
fn append_button(out: &mut String, b: &MouseButton)
    ensures
        final(out)@ == old(out)@ + button_name(*b),
{
    match b {
        MouseButton::Left => out.append("Left"),
        MouseButton::Right => out.append("Right"),
        MouseButton::Middle => out.append("Middle"),
    }
}

/// Renders an action into its storage text.
pub fn encode_action(a: &Action) -> (r: String)
    ensures
        r@ == spec_encode(a@),
{
    let mut out = String::new();
    match a {
        Action::MouseMove { x, y } => {
            out.append("{\"type\":\"mouse_move\",\"x\":");
            append_decimal_i32(&mut out, *x);
            out.append(",\"y\":");
            append_decimal_i32(&mut out, *y);
            out.append("}");
        },
        Action::MouseDown { button, x, y } => {
            out.append("{\"type\":\"mouse_down\",\"button\":\"");
            append_button(&mut out, button);
            out.append("\",\"x\":");
            append_decimal_i32(&mut out, *x);
            out.append(",\"y\":");
            append_decimal_i32(&mut out, *y);
            out.append("}");
        },
        Action::MouseUp { button, x, y } => {
            out.append("{\"type\":\"mouse_up\",\"button\":\"");
            append_button(&mut out, button);
            out.append("\",\"x\":");
            append_decimal_i32(&mut out, *x);
            out.append(",\"y\":");
            append_decimal_i32(&mut out, *y);
            out.append("}");
        },
        Action::Wheel { delta_x, delta_y, x, y } => {
            out.append("{\"type\":\"wheel\",\"delta_x\":");
            append_decimal_i32(&mut out, *delta_x);
            out.append(",\"delta_y\":");
            append_decimal_i32(&mut out, *delta_y);
            out.append(",\"x\":");
            append_decimal_i32(&mut out, *x);
            out.append(",\"y\":");
            append_decimal_i32(&mut out, *y);
            out.append("}");
        },
        Action::KeyPress { key } => {
            out.append("{\"type\":\"key_press\",\"key\":\"");
            out.append(key.as_str());
            out.append("\"}");
        },
    }
    proof {
        assert(out@ =~= spec_encode(a@));
    }
    out
}

/// The end of the digit run starting at `i`: the first position at or
/// after `i` holding no digit.
pub open spec fn run_end(s: Seq<char>, i: int) -> int
    decreases s.len() - i,
    when 0 <= i <= s.len()
{
    if i < s.len() && is_digit_char(s[i]) {
        run_end(s, i + 1)
    } else {
        i
    }
}

pub proof fn lemma_run_end_bounds(s: Seq<char>, i: int)
    requires
        0 <= i <= s.len(),
    ensures
        i <= run_end(s, i) <= s.len(),
        forall|k: int| i <= k < run_end(s, i) ==> is_digit_char(#[trigger] s[k]),
        run_end(s, i) == s.len() || !is_digit_char(s[run_end(s, i)]),
    decreases s.len() - i,
{
    if i < s.len() && is_digit_char(s[i]) {
        lemma_run_end_bounds(s, i + 1);
    }
}

/// A run of digits bounded on both sides pins the run's end down.
pub proof fn lemma_run_end_determined(s: Seq<char>, i: int, j: int)
    requires
        0 <= i <= j <= s.len(),
        forall|k: int| i <= k < j ==> is_digit_char(#[trigger] s[k]),
        j == s.len() || !is_digit_char(s[j]),
    ensures
        run_end(s, i) == j,
    decreases j - i,
{
    if i < j {
        assert(is_digit_char(s[i]));
        lemma_run_end_determined(s, i + 1, j);
    }
}

/// Whether the digit run at `i` reads as a stored number: non-empty, at
/// most ten digits, no leading zero.
pub open spec fn numeral_at(s: Seq<char>, i: int) -> bool {
    let j = run_end(s, i);
    j > i && j - i <= 10 && (s[i] != '0' || j == i + 1)
}

/// The value of the digit run at `i`.
pub open spec fn numeral_val(s: Seq<char>, i: int) -> nat {
    spec_digits_val(s.subrange(i, run_end(s, i)))
}

/// Whether a stored signed number sits at `i`, with a value an `i32`
/// carries.
pub open spec fn signed_at(s: Seq<char>, i: int) -> bool {
    if i < s.len() && s[i] == '-' {
        numeral_at(s, i + 1) && 1 <= numeral_val(s, i + 1) <= 2147483648
    } else {
        numeral_at(s, i) && numeral_val(s, i) <= 2147483647
    }
}

/// The signed value at `i`, meaningful when `signed_at` holds.
pub open spec fn signed_val(s: Seq<char>, i: int) -> int {
    if i < s.len() && s[i] == '-' {
        -(numeral_val(s, i + 1) as int)
    } else {
        numeral_val(s, i) as int
    }
}

/// The position right after the signed number at `i`.
pub open spec fn signed_end(s: Seq<char>, i: int) -> int {
    if i < s.len() && s[i] == '-' {
        run_end(s, i + 1)
    } else {
        run_end(s, i)
    }
}

/// Whether the character at `i` is a decimal digit.
fn digit_at(s: &str, n: usize, j: usize) -> (b: bool)
    requires
        n == s@.len(),
        j < n,
    ensures
        b == is_digit_char(s@[j as int]),
{
    let c = s.get_char(j);
    let u = c as u32;
    48 <= u && u <= 57
}

/// Whether the text continues with `lit` at position `i`.
fn match_at(s: &str, n: usize, i: usize, lit: &str) -> (b: bool)
    requires
        n == s@.len(),
        i <= n,
    ensures
        b <==> (i + lit@.len() <= s@.len() && s@.subrange(
            i as int,
            i + lit@.len(),
        ) == lit@),
{
    let m = lit.unicode_len();
    if m > n - i {
        return false;
    }
    let mut j: usize = 0;
    while j < m
        invariant
            n == s@.len(),
            m == lit@.len(),
            i + m <= n,
            0 <= j <= m,
            forall|k: int| 0 <= k < j ==> s@[i + k] == lit@[k],
        decreases m - j,
    {
        if s.get_char(i + j) != lit.get_char(j) {
            proof {
                assert(s@[i + j as int] != lit@[j as int]);
                assert(s@.subrange(i as int, i + lit@.len()) != lit@) by {
                    assert(s@.subrange(i as int, i + lit@.len())[j as int] != lit@[j as int]);
                }
            }
            return false;
        }
        j += 1;
    }
    proof {
        assert(s@.subrange(i as int, i + lit@.len()) =~= lit@);
    }
    true
}

/// Reads the stored number at `i`, when one sits there.
fn parse_number(s: &str, n: usize, i: usize) -> (r: Option<(u64, usize)>)
    requires
        n == s@.len(),
        i <= n,
    ensures
        r is Some <==> numeral_at(s@, i as int),
        r matches Some((v, j)) ==> {
            &&& i < j <= n
            &&& j == run_end(s@, i as int)
            &&& wf_digit_run(s@.subrange(i as int, j as int))
            &&& v == numeral_val(s@, i as int)
            &&& v < 10000000000
        },
{
    proof {
        lemma_run_end_bounds(s@, i as int);
    }
    // find the end of the digit run
    let mut j: usize = i;
    while j < n && digit_at(s, n, j)
        invariant
            n == s@.len(),
            i <= j <= n,
            forall|k: int| i <= k < j ==> is_digit_char(#[trigger] s@[k]),
        decreases n - j,
    {
        j += 1;
    }
    proof {
        lemma_run_end_determined(s@, i as int, j as int);
    }
    if j == i || j - i > 10 {
        return None;
    }
    let first = s.get_char(i);
    if first == '0' && j > i + 1 {
        return None;
    }
    proof {
        assert(numeral_at(s@, i as int));
    }
    // read the digits into a value; at most ten of them, so no overflow
    let ghost run = s@.subrange(i as int, j as int);
    let mut v: u64 = 0;
    let mut k: usize = i;
    while k < j
        invariant
            n == s@.len(),
            i <= k <= j <= n,
            j - i <= 10,
            forall|m2: int| i <= m2 < j ==> is_digit_char(#[trigger] s@[m2]),
            run == s@.subrange(i as int, j as int),
            v == spec_digits_val(run.subrange(0, k - i)),
            v < pow10((k - i) as nat),
        decreases j - k,
    {
        let c = s.get_char(k);
        let d: u64 = (c as u32 - 48) as u64;
        proof {
            assert(is_digit_char(s@[k as int]));
            assert(d == char_digit(s@[k as int]));
            assert(run.subrange(0, k - i + 1).drop_last() =~= run.subrange(0, k - i));
            assert(run.subrange(0, k - i + 1).last() == s@[k as int]);
            let ki = (k - i) as nat;
            lemma_pow10_ten();
            lemma_pow10_mono(ki + 1, 10);
            assert(pow10(ki + 1) == 10 * pow10(ki));
            assert(v * 10 + d < pow10(ki + 1)) by (nonlinear_arith)
                requires
                    v < pow10(ki),
                    d < 10,
                    pow10(ki + 1) == 10 * pow10(ki),
            ;
        }
        v = v * 10 + d;
        k += 1;
    }
    proof {
        assert(run.subrange(0, j - i) =~= run);
        lemma_pow10_ten();
        lemma_pow10_mono((j - i) as nat, 10);
    }
    Some((v, j))
}

/// Ten to the given power.
pub open spec fn pow10(k: nat) -> nat
    decreases k,
{
    if k == 0 {
        1
    } else {
        10 * pow10((k - 1) as nat)
    }
}

proof fn lemma_pow10_ten()
    ensures
        pow10(10) == 10000000000,
{
    assert(pow10(0) == 1);
    assert(pow10(1) == 10);
    assert(pow10(2) == 100);
    assert(pow10(3) == 1000);
    assert(pow10(4) == 10000);
    assert(pow10(5) == 100000);
    assert(pow10(6) == 1000000);
    assert(pow10(7) == 10000000);
    assert(pow10(8) == 100000000);
    assert(pow10(9) == 1000000000);
    assert(pow10(10) == 10000000000);
}

proof fn lemma_pow10_mono(a: nat, b: nat)
    requires
        a <= b,
    ensures
        pow10(a) <= pow10(b),
    decreases b,
{
    if a < b && b > 0 {
        lemma_pow10_mono(a, (b - 1) as nat);
        assert(pow10((b - 1) as nat) <= 10 * pow10((b - 1) as nat)) by (nonlinear_arith)
            requires
                pow10((b - 1) as nat) >= 0,
        ;
    }
}

/// Reads the signed stored number at `i`, when one sits there.
fn parse_signed(s: &str, n: usize, i: usize) -> (r: Option<(i32, usize)>)
    requires
        n == s@.len(),
        i <= n,
    ensures
        r is Some <==> signed_at(s@, i as int),
        r matches Some((v, j)) ==> {
            &&& i < j <= n
            &&& j == signed_end(s@, i as int)
            &&& v as int == signed_val(s@, i as int)
            &&& s@.subrange(i as int, j as int) == spec_idec(v as int)
            &&& (j == n || !is_digit_char(s@[j as int]))
        },
{
    proof {
        lemma_run_end_bounds(s@, i as int);
    }
    if i < n && s.get_char(i) == '-' {
        proof {
            lemma_run_end_bounds(s@, i + 1);
        }
        match parse_number(s, n, i + 1) {
            Some((v, j)) => {
                if v == 0 || v > 2147483648 {
                    return None;
                }
                let value: i32 = (0i64 - v as i64) as i32;
                proof {
                    let run = s@.subrange(i + 1, j as int);
                    lemma_digits_round_trip(run);
                    assert(s@.subrange(i as int, j as int) =~= seq!['-'] + run);
                    assert(spec_idec(value as int) == seq!['-'] + spec_udec(v as nat));
                }
                Some((value, j))
            },
            None => None,
        }
    } else {
        match parse_number(s, n, i) {
            Some((v, j)) => {
                if v > 2147483647 {
                    return None;
                }
                proof {
                    let run = s@.subrange(i as int, j as int);
                    lemma_digits_round_trip(run);
                    assert(s@[i as int] == run[0]);
                    assert(s@[i as int] != '-');
                }
                Some((v as i32, j))
            },
            None => None,
        }
    }
}

proof fn lemma_udec_len_le(n: nat, k: nat)
    requires
        k >= 1,
        n < pow10(k),
    ensures
        spec_udec(n).len() <= k,
    decreases k,
{
    if n >= 10 {
        assert(pow10(0) == 1);
        assert(pow10(1) == 10);
        if k == 1 {
            assert(false);
        }
        assert(pow10(k) == 10 * pow10((k - 1) as nat));
        assert(n / 10 < pow10((k - 1) as nat)) by (nonlinear_arith)
            requires
                n < 10 * pow10((k - 1) as nat),
                n >= 10,
        ;
        lemma_udec_len_le(n / 10, (k - 1) as nat);
    }
}

/// A signed number's rendered text at a position, followed by a non-digit,
/// is read back as exactly that number ending exactly where it ends.
proof fn lemma_signed_present(w: Seq<char>, i: int, v: int)
    requires
        in_i32(v),
        0 <= i,
        i + spec_idec(v).len() <= w.len(),
        w.subrange(i, i + spec_idec(v).len()) == spec_idec(v),
        i + spec_idec(v).len() == w.len() || !is_digit_char(w[i + spec_idec(v).len()]),
    ensures
        signed_at(w, i),
        signed_val(w, i) == v,
        signed_end(w, i) == i + spec_idec(v).len(),
{
    lemma_pow10_ten();
    if v < 0 {
        let m = (-v) as nat;
        let run = spec_udec(m);
        lemma_udec_wf(m);
        lemma_udec_len_le(m, 10);
        lemma_udec_round_trip(m);
        assert(spec_idec(v) == seq!['-'] + run);
        assert(w.subrange(i, i + spec_idec(v).len())[0] == w[i]);
        assert(w[i] == '-');
        assert(w.subrange(i + 1, i + 1 + run.len()) =~= run) by {
            assert(forall|t: int| 0 <= t < run.len() ==> w.subrange(
                i,
                i + spec_idec(v).len(),
            )[t + 1] == #[trigger] run[t]);
        }
        assert(forall|t: int| i + 1 <= t < i + 1 + run.len() ==> is_digit_char(
            #[trigger] w[t],
        )) by {
            assert(forall|t: int| i + 1 <= t < i + 1 + run.len() ==> w[t] == run[t - i - 1]);
        }
        lemma_run_end_determined(w, i + 1, i + 1 + run.len());
        assert(w[i + 1] == run[0]);
        assert(numeral_at(w, i + 1));
        assert(w.subrange(i + 1, run_end(w, i + 1)) == run);
        assert(numeral_val(w, i + 1) == m);
    } else {
        let run = spec_udec(v as nat);
        lemma_udec_wf(v as nat);
        lemma_udec_len_le(v as nat, 10);
        lemma_udec_round_trip(v as nat);
        assert(spec_idec(v) == run);
        assert(w.subrange(i, i + run.len()) == run);
        assert(w.subrange(i, i + spec_idec(v).len())[0] == w[i]);
        assert(forall|t: int| i <= t < i + run.len() ==> is_digit_char(#[trigger] w[t])) by {
            assert(forall|t: int| i <= t < i + run.len() ==> w[t] == run[t - i]);
        }
        lemma_run_end_determined(w, i, i + run.len());
        assert(w[i] == run[0]);
        assert(is_digit_char(w[i]));
        assert(w[i] != '-');
        assert(numeral_at(w, i));
        assert(w.subrange(i, run_end(w, i)) == run);
        assert(numeral_val(w, i) == v as nat);
    }
}

/// The end of the run of plain key characters starting at `i`.
pub open spec fn key_end(s: Seq<char>, i: int) -> int
    decreases s.len() - i,
    when 0 <= i <= s.len()
{
    if i < s.len() && wf_key_char(s[i]) {
        key_end(s, i + 1)
    } else {
        i
    }
}

proof fn lemma_key_end_bounds(s: Seq<char>, i: int)
    requires
        0 <= i <= s.len(),
    ensures
        i <= key_end(s, i) <= s.len(),
        forall|k: int| i <= k < key_end(s, i) ==> wf_key_char(#[trigger] s[k]),
        key_end(s, i) == s.len() || !wf_key_char(s[key_end(s, i)]),
    decreases s.len() - i,
{
    if i < s.len() && wf_key_char(s[i]) {
        lemma_key_end_bounds(s, i + 1);
    }
}

proof fn lemma_key_end_determined(s: Seq<char>, i: int, j: int)
    requires
        0 <= i <= j <= s.len(),
        forall|k: int| i <= k < j ==> wf_key_char(#[trigger] s[k]),
        j == s.len() || !wf_key_char(s[j]),
    ensures
        key_end(s, i) == j,
    decreases j - i,
{
    if i < j {
        assert(wf_key_char(s[i]));
        lemma_key_end_determined(s, i + 1, j);
    }
}

/// Whether the character at `j` may stand inside a key label.
fn key_char_at(s: &str, n: usize, j: usize) -> (b: bool)
    requires
        n == s@.len(),
        j < n,
    ensures
        b == wf_key_char(s@[j as int]),
{
    let c = s.get_char(j);
    let u = c as u32;
    32 <= u && u <= 126 && c != '"' && c != '\\'
}

/// Finds the end of the run of plain key characters at `i`.
fn scan_key(s: &str, n: usize, i: usize) -> (j: usize)
    requires
        n == s@.len(),
        i <= n,
    ensures
        i <= j <= n,
        j == key_end(s@, i as int),
{
    let mut j: usize = i;
    while j < n && key_char_at(s, n, j)
        invariant
            n == s@.len(),
            i <= j <= n,
            forall|k: int| i <= k < j ==> wf_key_char(#[trigger] s@[k]),
        decreases n - j,
    {
        j += 1;
    }
    proof {
        lemma_key_end_determined(s@, i as int, j as int);
    }
    j
}

/// Reads back an action stored with the `mouse_move` tag.
fn decode_mouse_move(s: &str, n: usize) -> (r: Option<Action>)
    requires
        n == s@.len(),
    ensures
        r matches Some(a) ==> wf_action(a@) && s@ == spec_encode(a@) && a@ is MouseMove,
        r is None ==> forall|b: ActionAbs|
            #[trigger] spec_encode(b) == s@ && b is MouseMove && wf_action(b) ==> false,
{
    let p = "{\"type\":\"mouse_move\",\"x\":";
    let m = ",\"y\":";
    let e = "}";
    let pl = p.unicode_len();
    let ml = m.unicode_len();
    proof {
        reveal_strlit("{\"type\":\"mouse_move\",\"x\":");
        reveal_strlit(",\"y\":");
        reveal_strlit("}");
    }
    if !match_at(s, n, 0, p) {
        proof {
            assert forall|b: ActionAbs|
                #[trigger] spec_encode(b) == s@ && b is MouseMove && wf_action(b) implies false by {
                if let ActionAbs::MouseMove { x: xb, y: yb } = b {
                    assert(s@.subrange(0, p@.len() as int) =~= p@);
                }
            }
        }
        return None;
    }
    let i1 = pl;
    let parsed_x = parse_signed(s, n, i1);
    if parsed_x.is_none() {
        proof {
            assert forall|b: ActionAbs|
                #[trigger] spec_encode(b) == s@ && b is MouseMove && wf_action(b) implies false by {
                if let ActionAbs::MouseMove { x: xb, y: yb } = b {
                    let lx = spec_idec(xb).len();
                    assert(s@.subrange(i1 as int, i1 + lx) =~= spec_idec(xb));
                    assert(s@[i1 + lx] == m@[0]);
                    lemma_signed_present(s@, i1 as int, xb);
                }
            }
        }
        return None;
    }
    let (x, j1) = parsed_x.unwrap();
    if !match_at(s, n, j1, m) {
        proof {
            assert forall|b: ActionAbs|
                #[trigger] spec_encode(b) == s@ && b is MouseMove && wf_action(b) implies false by {
                if let ActionAbs::MouseMove { x: xb, y: yb } = b {
                    let lx = spec_idec(xb).len();
                    assert(s@.subrange(i1 as int, i1 + lx) =~= spec_idec(xb));
                    assert(s@[i1 + lx] == m@[0]);
                    lemma_signed_present(s@, i1 as int, xb);
                    assert(j1 == i1 + lx);
                    assert(s@.subrange(j1 as int, j1 + m@.len()) =~= m@);
                }
            }
        }
        return None;
    }
    let i2 = j1 + ml;
    let parsed_y = parse_signed(s, n, i2);
    if parsed_y.is_none() {
        proof {
            assert forall|b: ActionAbs|
                #[trigger] spec_encode(b) == s@ && b is MouseMove && wf_action(b) implies false by {
                if let ActionAbs::MouseMove { x: xb, y: yb } = b {
                    let lx = spec_idec(xb).len();
                    let ly = spec_idec(yb).len();
                    assert(s@.subrange(i1 as int, i1 + lx) =~= spec_idec(xb));
                    assert(s@[i1 + lx] == m@[0]);
                    lemma_signed_present(s@, i1 as int, xb);
                    assert(j1 == i1 + lx);
                    assert(s@.subrange(i2 as int, i2 + ly) =~= spec_idec(yb));
                    assert(s@[i2 + ly] == e@[0]);
                    lemma_signed_present(s@, i2 as int, yb);
                }
            }
        }
        return None;
    }
    let (y, j2) = parsed_y.unwrap();
    if match_at(s, n, j2, e) && n - j2 == 1 {
        let a = Action::MouseMove { x, y };
        proof {
            assert(s@.subrange(0, i1 as int) == p@);
            assert(s@.subrange(j1 as int, i2 as int) == m@);
            assert(s@.subrange(j2 as int, n as int) == e@);
            assert(s@ =~= p@ + spec_idec(x as int) + m@ + spec_idec(y as int) + e@);
        }
        Some(a)
    } else {
        proof {
            assert forall|b: ActionAbs|
                #[trigger] spec_encode(b) == s@ && b is MouseMove && wf_action(b) implies false by {
                if let ActionAbs::MouseMove { x: xb, y: yb } = b {
                    let lx = spec_idec(xb).len();
                    let ly = spec_idec(yb).len();
                    assert(s@.subrange(i1 as int, i1 + lx) =~= spec_idec(xb));
                    assert(s@[i1 + lx] == m@[0]);
                    lemma_signed_present(s@, i1 as int, xb);
                    assert(j1 == i1 + lx);
                    assert(s@.subrange(i2 as int, i2 + ly) =~= spec_idec(yb));
                    assert(s@[i2 + ly] == e@[0]);
                    lemma_signed_present(s@, i2 as int, yb);
                    assert(j2 == i2 + ly);
                    assert(s@.subrange(j2 as int, j2 + e@.len()) =~= e@);
                    assert(n - j2 == 1);
                }
            }
        }
        None
    }
}


/// How the text of a stored mouse_down action lays out: the prefix, the
/// button name, then the two coordinates, each piece at a pinned position.
proof fn lemma_mouse_down_layout(w: Seq<char>, bb: MouseButton, xb: int, yb: int)
    requires
        in_i32(xb),
        in_i32(yb),
        w == spec_encode(ActionAbs::MouseDown { button: bb, x: xb, y: yb }),
    ensures
        ({
            let pp = "{\"type\":\"mouse_down\",\"button\":\""@;
            let q2 = "\",\"x\":"@;
            let bn = button_name(bb);
            let i2: int = pp.len() + bn.len() + q2.len() as int;
            let j1: int = i2 + spec_idec(xb).len();
            let i3: int = j1 + ",\"y\":"@.len();
            let j2: int = i3 + spec_idec(yb).len();
            &&& w.len() == j2 + 1
            &&& w.subrange(0, pp.len() as int) == pp
            &&& w.subrange(pp.len() as int, i2) == bn + q2
            &&& w[pp.len() as int] == bn[0]
            &&& signed_at(w, i2)
            &&& signed_val(w, i2) == xb
            &&& signed_end(w, i2) == j1
            &&& w.subrange(j1, i3) == ",\"y\":"@
            &&& signed_at(w, i3)
            &&& signed_val(w, i3) == yb
            &&& signed_end(w, i3) == j2
            &&& w.subrange(j2, j2 + 1) == "}"@
        }),
{
    let pp = "{\"type\":\"mouse_down\",\"button\":\""@;
    let q2 = "\",\"x\":"@;
    let mm = ",\"y\":"@;
    let ee = "}"@;
    let bn = button_name(bb);
    let i2: int = pp.len() + bn.len() + q2.len() as int;
    let j1: int = i2 + spec_idec(xb).len();
    let i3: int = j1 + mm.len();
    let j2: int = i3 + spec_idec(yb).len();
    reveal_strlit("{\"type\":\"mouse_down\",\"button\":\"");
    reveal_strlit("\",\"x\":");
    reveal_strlit(",\"y\":");
    reveal_strlit("}");
    reveal_strlit("Left");
    reveal_strlit("Right");
    reveal_strlit("Middle");
    match bb {
        MouseButton::Left => {},
        MouseButton::Right => {},
        MouseButton::Middle => {},
    }
    assert(bn.len() >= 1);
    assert(w.subrange(0, pp.len() as int) =~= pp);
    assert(w.subrange(pp.len() as int, i2) =~= bn + q2);
    assert(w[pp.len() as int] == (bn + q2)[0]);
    assert(w.subrange(i2, j1) =~= spec_idec(xb));
    assert(w[j1] == mm[0]);
    lemma_signed_present(w, i2, xb);
    assert(w.subrange(j1, i3) =~= mm);
    assert(w.subrange(i3, j2) =~= spec_idec(yb));
    assert(w[j2] == ee[0]);
    lemma_signed_present(w, i3, yb);
    assert(w.subrange(j2, j2 + 1) =~= ee);
}


/// Pieces laid out in order reassemble into the stored text of a
/// mouse_down action.
proof fn lemma_mouse_down_accept(
    w: Seq<char>,
    button: MouseButton,
    x: i32,
    y: i32,
    i1: int,
    i2: int,
    j1: int,
    i3: int,
    j2: int,
)
    requires
        0 <= i1 <= i2 <= j1 <= i3 <= j2 < w.len(),
        w.subrange(0, i1) == "{\"type\":\"mouse_down\",\"button\":\""@,
        i1 == "{\"type\":\"mouse_down\",\"button\":\""@.len(),
        w.subrange(i1, i2) == button_name(button) + "\",\"x\":"@,
        w.subrange(i2, j1) == spec_idec(x as int),
        w.subrange(j1, i3) == ",\"y\":"@,
        w.subrange(i3, j2) == spec_idec(y as int),
        w.subrange(j2, j2 + "}"@.len()) == "}"@,
        j2 + "}"@.len() <= w.len(),
        w.len() == j2 + 1,
    ensures
        w == spec_encode(ActionAbs::MouseDown { button, x: x as int, y: y as int }),
{
    reveal_strlit("}");
    assert(w.subrange(j2, w.len() as int) == "}"@);
    assert(w =~= w.subrange(0, i1) + w.subrange(i1, i2) + w.subrange(i2, j1) + w.subrange(
        j1,
        i3,
    ) + w.subrange(i3, j2) + w.subrange(j2, w.len() as int));
    assert(w.subrange(0, i1) + w.subrange(i1, i2) + w.subrange(i2, j1) + w.subrange(j1, i3)
        + w.subrange(i3, j2) + w.subrange(j2, w.len() as int) =~= spec_encode(
        ActionAbs::MouseDown { button, x: x as int, y: y as int },
    ));
}

/// Reads back an action stored with the `mouse_down` tag.
#[verifier::rlimit(100)]
fn decode_mouse_down(s: &str, n: usize) -> (r: Option<Action>)
    requires
        n == s@.len(),
    ensures
        r matches Some(a) ==> wf_action(a@) && s@ == spec_encode(a@) && a@ is MouseDown,
        r is None ==> forall|b: ActionAbs|
            #[trigger] spec_encode(b) == s@ && b is MouseDown && wf_action(b) ==> false,
{
    let p = "{\"type\":\"mouse_down\",\"button\":\"";
    let bl_left = "Left\",\"x\":";
    let bl_right = "Right\",\"x\":";
    let bl_middle = "Middle\",\"x\":";
    let m = ",\"y\":";
    let e = "}";
    let pl = p.unicode_len();
    let ml = m.unicode_len();
    let ghost q = "\",\"x\":"@;
    proof {
        reveal_strlit("Left\",\"x\":");
        reveal_strlit("Right\",\"x\":");
        reveal_strlit("Middle\",\"x\":");
        reveal_strlit("\",\"x\":");
        reveal_strlit("Left");
        reveal_strlit("Right");
        reveal_strlit("Middle");
        assert(bl_left@ =~= button_name(MouseButton::Left) + q);
        assert(bl_right@ =~= button_name(MouseButton::Right) + q);
        assert(bl_middle@ =~= button_name(MouseButton::Middle) + q);
    }
    if !match_at(s, n, 0, p) {
        proof {
            assert forall|b: ActionAbs|
                #[trigger] spec_encode(b) == s@ && b is MouseDown && wf_action(b) implies false by {
                if let ActionAbs::MouseDown { button: bb, x: xb, y: yb } = b {
                    lemma_mouse_down_layout(s@, bb, xb, yb);
                }
            }
        }
        return None;
    }
    let i1 = pl;
    let picked = if match_at(s, n, i1, bl_left) {
        Some((MouseButton::Left, bl_left.unicode_len()))
    } else if match_at(s, n, i1, bl_right) {
        Some((MouseButton::Right, bl_right.unicode_len()))
    } else if match_at(s, n, i1, bl_middle) {
        Some((MouseButton::Middle, bl_middle.unicode_len()))
    } else {
        None
    };
    if picked.is_none() {
        proof {
            assert forall|b: ActionAbs|
                #[trigger] spec_encode(b) == s@ && b is MouseDown && wf_action(b) implies false by {
                if let ActionAbs::MouseDown { button: bb, x: xb, y: yb } = b {
                    lemma_mouse_down_layout(s@, bb, xb, yb);
                    let bn = button_name(bb);
                    assert(s@.subrange(i1 as int, i1 + bn.len() + q.len()) =~= bn + q);
                    match bb {
                        MouseButton::Left => {},
                        MouseButton::Right => {},
                        MouseButton::Middle => {},
                    }
                }
            }
        }
        return None;
    }
    let (button, blen) = picked.unwrap();
    let ghost bq = button_name(button) + q;
    proof {
        assert(s@.subrange(i1 as int, i1 + bq.len()) == bq);
    }
    let i2 = i1 + blen;
    let parsed_x = parse_signed(s, n, i2);
    if parsed_x.is_none() {
        proof {
            assert forall|b: ActionAbs|
                #[trigger] spec_encode(b) == s@ && b is MouseDown && wf_action(b) implies false by {
                if let ActionAbs::MouseDown { button: bb, x: xb, y: yb } = b {
                    lemma_mouse_down_layout(s@, bb, xb, yb);
                    let bn = button_name(bb);
                    assert(s@[i1 as int] == bn[0]);
                    assert(s@.subrange(i1 as int, i1 + bq.len())[0] == s@[i1 as int]);
                    assert(bq[0] == button_name(button)[0]);
                    assert(bb == button);
                }
            }
        }
        return None;
    }
    let (x, j1) = parsed_x.unwrap();
    if !match_at(s, n, j1, m) {
        proof {
            assert forall|b: ActionAbs|
                #[trigger] spec_encode(b) == s@ && b is MouseDown && wf_action(b) implies false by {
                if let ActionAbs::MouseDown { button: bb, x: xb, y: yb } = b {
                    lemma_mouse_down_layout(s@, bb, xb, yb);
                    let bn = button_name(bb);
                    assert(s@[i1 as int] == bn[0]);
                    assert(s@.subrange(i1 as int, i1 + bq.len())[0] == s@[i1 as int]);
                    assert(bq[0] == button_name(button)[0]);
                    assert(bb == button);
                    assert(j1 == signed_end(s@, i2 as int));
                }
            }
        }
        return None;
    }
    let i3 = j1 + ml;
    let parsed_y = parse_signed(s, n, i3);
    if parsed_y.is_none() {
        proof {
            assert forall|b: ActionAbs|
                #[trigger] spec_encode(b) == s@ && b is MouseDown && wf_action(b) implies false by {
                if let ActionAbs::MouseDown { button: bb, x: xb, y: yb } = b {
                    lemma_mouse_down_layout(s@, bb, xb, yb);
                    let bn = button_name(bb);
                    assert(s@[i1 as int] == bn[0]);
                    assert(s@.subrange(i1 as int, i1 + bq.len())[0] == s@[i1 as int]);
                    assert(bq[0] == button_name(button)[0]);
                    assert(bb == button);
                    assert(j1 == signed_end(s@, i2 as int));
                }
            }
        }
        return None;
    }
    let (y, j2) = parsed_y.unwrap();
    if match_at(s, n, j2, e) && n - j2 == 1 {
        let a = Action::MouseDown { button, x, y };
        proof {
            lemma_mouse_down_accept(
                s@,
                button,
                x,
                y,
                i1 as int,
                i2 as int,
                j1 as int,
                i3 as int,
                j2 as int,
            );
        }
        Some(a)
    } else {
        proof {
            assert forall|b: ActionAbs|
                #[trigger] spec_encode(b) == s@ && b is MouseDown && wf_action(b) implies false by {
                if let ActionAbs::MouseDown { button: bb, x: xb, y: yb } = b {
                    lemma_mouse_down_layout(s@, bb, xb, yb);
                    let bn = button_name(bb);
                    assert(s@[i1 as int] == bn[0]);
                    assert(s@.subrange(i1 as int, i1 + bq.len())[0] == s@[i1 as int]);
                    assert(bq[0] == button_name(button)[0]);
                    assert(bb == button);
                    assert(j1 == signed_end(s@, i2 as int));
                    assert(j2 == signed_end(s@, i3 as int));
                }
            }
        }
        None
    }
}

/// How the text of a stored mouse_up action lays out: the prefix, the
/// button name, then the two coordinates, each piece at a pinned position.
proof fn lemma_mouse_up_layout(w: Seq<char>, bb: MouseButton, xb: int, yb: int)
    requires
        in_i32(xb),
        in_i32(yb),
        w == spec_encode(ActionAbs::MouseUp { button: bb, x: xb, y: yb }),
    ensures
        ({
            let pp = "{\"type\":\"mouse_up\",\"button\":\""@;
            let q2 = "\",\"x\":"@;
            let bn = button_name(bb);
            let i2: int = pp.len() + bn.len() + q2.len() as int;
            let j1: int = i2 + spec_idec(xb).len();
            let i3: int = j1 + ",\"y\":"@.len();
            let j2: int = i3 + spec_idec(yb).len();
            &&& w.len() == j2 + 1
            &&& w.subrange(0, pp.len() as int) == pp
            &&& w.subrange(pp.len() as int, i2) == bn + q2
            &&& w[pp.len() as int] == bn[0]
            &&& signed_at(w, i2)
            &&& signed_val(w, i2) == xb
            &&& signed_end(w, i2) == j1
            &&& w.subrange(j1, i3) == ",\"y\":"@
            &&& signed_at(w, i3)
            &&& signed_val(w, i3) == yb
            &&& signed_end(w, i3) == j2
            &&& w.subrange(j2, j2 + 1) == "}"@
        }),
{
    let pp = "{\"type\":\"mouse_up\",\"button\":\""@;
    let q2 = "\",\"x\":"@;
    let mm = ",\"y\":"@;
    let ee = "}"@;
    let bn = button_name(bb);
    let i2: int = pp.len() + bn.len() + q2.len() as int;
    let j1: int = i2 + spec_idec(xb).len();
    let i3: int = j1 + mm.len();
    let j2: int = i3 + spec_idec(yb).len();
    reveal_strlit("{\"type\":\"mouse_up\",\"button\":\"");
    reveal_strlit("\",\"x\":");
    reveal_strlit(",\"y\":");
    reveal_strlit("}");
    reveal_strlit("Left");
    reveal_strlit("Right");
    reveal_strlit("Middle");
    match bb {
        MouseButton::Left => {},
        MouseButton::Right => {},
        MouseButton::Middle => {},
    }
    assert(bn.len() >= 1);
    assert(w.subrange(0, pp.len() as int) =~= pp);
    assert(w.subrange(pp.len() as int, i2) =~= bn + q2);
    assert(w[pp.len() as int] == (bn + q2)[0]);
    assert(w.subrange(i2, j1) =~= spec_idec(xb));
    assert(w[j1] == mm[0]);
    lemma_signed_present(w, i2, xb);
    assert(w.subrange(j1, i3) =~= mm);
    assert(w.subrange(i3, j2) =~= spec_idec(yb));
    assert(w[j2] == ee[0]);
    lemma_signed_present(w, i3, yb);
    assert(w.subrange(j2, j2 + 1) =~= ee);
}


/// Pieces laid out in order reassemble into the stored text of a
/// mouse_up action.
proof fn lemma_mouse_up_accept(
    w: Seq<char>,
    button: MouseButton,
    x: i32,
    y: i32,
    i1: int,
    i2: int,
    j1: int,
    i3: int,
    j2: int,
)
    requires
        0 <= i1 <= i2 <= j1 <= i3 <= j2 < w.len(),
        w.subrange(0, i1) == "{\"type\":\"mouse_up\",\"button\":\""@,
        i1 == "{\"type\":\"mouse_up\",\"button\":\""@.len(),
        w.subrange(i1, i2) == button_name(button) + "\",\"x\":"@,
        w.subrange(i2, j1) == spec_idec(x as int),
        w.subrange(j1, i3) == ",\"y\":"@,
        w.subrange(i3, j2) == spec_idec(y as int),
        w.subrange(j2, j2 + "}"@.len()) == "}"@,
        j2 + "}"@.len() <= w.len(),
        w.len() == j2 + 1,
    ensures
        w == spec_encode(ActionAbs::MouseUp { button, x: x as int, y: y as int }),
{
    reveal_strlit("}");
    assert(w.subrange(j2, w.len() as int) == "}"@);
    assert(w =~= w.subrange(0, i1) + w.subrange(i1, i2) + w.subrange(i2, j1) + w.subrange(
        j1,
        i3,
    ) + w.subrange(i3, j2) + w.subrange(j2, w.len() as int));
    assert(w.subrange(0, i1) + w.subrange(i1, i2) + w.subrange(i2, j1) + w.subrange(j1, i3)
        + w.subrange(i3, j2) + w.subrange(j2, w.len() as int) =~= spec_encode(
        ActionAbs::MouseUp { button, x: x as int, y: y as int },
    ));
}

/// Reads back an action stored with the `mouse_up` tag.
#[verifier::rlimit(100)]
fn decode_mouse_up(s: &str, n: usize) -> (r: Option<Action>)
    requires
        n == s@.len(),
    ensures
        r matches Some(a) ==> wf_action(a@) && s@ == spec_encode(a@) && a@ is MouseUp,
        r is None ==> forall|b: ActionAbs|
            #[trigger] spec_encode(b) == s@ && b is MouseUp && wf_action(b) ==> false,
{
    let p = "{\"type\":\"mouse_up\",\"button\":\"";
    let bl_left = "Left\",\"x\":";
    let bl_right = "Right\",\"x\":";
    let bl_middle = "Middle\",\"x\":";
    let m = ",\"y\":";
    let e = "}";
    let pl = p.unicode_len();
    let ml = m.unicode_len();
    let ghost q = "\",\"x\":"@;
    proof {
        reveal_strlit("Left\",\"x\":");
        reveal_strlit("Right\",\"x\":");
        reveal_strlit("Middle\",\"x\":");
        reveal_strlit("\",\"x\":");
        reveal_strlit("Left");
        reveal_strlit("Right");
        reveal_strlit("Middle");
        assert(bl_left@ =~= button_name(MouseButton::Left) + q);
        assert(bl_right@ =~= button_name(MouseButton::Right) + q);
        assert(bl_middle@ =~= button_name(MouseButton::Middle) + q);
    }
    if !match_at(s, n, 0, p) {
        proof {
            assert forall|b: ActionAbs|
                #[trigger] spec_encode(b) == s@ && b is MouseUp && wf_action(b) implies false by {
                if let ActionAbs::MouseUp { button: bb, x: xb, y: yb } = b {
                    lemma_mouse_up_layout(s@, bb, xb, yb);
                }
            }
        }
        return None;
    }
    let i1 = pl;
    let picked = if match_at(s, n, i1, bl_left) {
        Some((MouseButton::Left, bl_left.unicode_len()))
    } else if match_at(s, n, i1, bl_right) {
        Some((MouseButton::Right, bl_right.unicode_len()))
    } else if match_at(s, n, i1, bl_middle) {
        Some((MouseButton::Middle, bl_middle.unicode_len()))
    } else {
        None
    };
    if picked.is_none() {
        proof {
            assert forall|b: ActionAbs|
                #[trigger] spec_encode(b) == s@ && b is MouseUp && wf_action(b) implies false by {
                if let ActionAbs::MouseUp { button: bb, x: xb, y: yb } = b {
                    lemma_mouse_up_layout(s@, bb, xb, yb);
                    let bn = button_name(bb);
                    assert(s@.subrange(i1 as int, i1 + bn.len() + q.len()) =~= bn + q);
                    match bb {
                        MouseButton::Left => {},
                        MouseButton::Right => {},
                        MouseButton::Middle => {},
                    }
                }
            }
        }
        return None;
    }
    let (button, blen) = picked.unwrap();
    let ghost bq = button_name(button) + q;
    proof {
        assert(s@.subrange(i1 as int, i1 + bq.len()) == bq);
    }
    let i2 = i1 + blen;
    let parsed_x = parse_signed(s, n, i2);
    if parsed_x.is_none() {
        proof {
            assert forall|b: ActionAbs|
                #[trigger] spec_encode(b) == s@ && b is MouseUp && wf_action(b) implies false by {
                if let ActionAbs::MouseUp { button: bb, x: xb, y: yb } = b {
                    lemma_mouse_up_layout(s@, bb, xb, yb);
                    let bn = button_name(bb);
                    assert(s@[i1 as int] == bn[0]);
                    assert(s@.subrange(i1 as int, i1 + bq.len())[0] == s@[i1 as int]);
                    assert(bq[0] == button_name(button)[0]);
                    assert(bb == button);
                }
            }
        }
        return None;
    }
    let (x, j1) = parsed_x.unwrap();
    if !match_at(s, n, j1, m) {
        proof {
            assert forall|b: ActionAbs|
                #[trigger] spec_encode(b) == s@ && b is MouseUp && wf_action(b) implies false by {
                if let ActionAbs::MouseUp { button: bb, x: xb, y: yb } = b {
                    lemma_mouse_up_layout(s@, bb, xb, yb);
                    let bn = button_name(bb);
                    assert(s@[i1 as int] == bn[0]);
                    assert(s@.subrange(i1 as int, i1 + bq.len())[0] == s@[i1 as int]);
                    assert(bq[0] == button_name(button)[0]);
                    assert(bb == button);
                    assert(j1 == signed_end(s@, i2 as int));
                }
            }
        }
        return None;
    }
    let i3 = j1 + ml;
    let parsed_y = parse_signed(s, n, i3);
    if parsed_y.is_none() {
        proof {
            assert forall|b: ActionAbs|
                #[trigger] spec_encode(b) == s@ && b is MouseUp && wf_action(b) implies false by {
                if let ActionAbs::MouseUp { button: bb, x: xb, y: yb } = b {
                    lemma_mouse_up_layout(s@, bb, xb, yb);
                    let bn = button_name(bb);
                    assert(s@[i1 as int] == bn[0]);
                    assert(s@.subrange(i1 as int, i1 + bq.len())[0] == s@[i1 as int]);
                    assert(bq[0] == button_name(button)[0]);
                    assert(bb == button);
                    assert(j1 == signed_end(s@, i2 as int));
                }
            }
        }
        return None;
    }
    let (y, j2) = parsed_y.unwrap();
    if match_at(s, n, j2, e) && n - j2 == 1 {
        let a = Action::MouseUp { button, x, y };
        proof {
            lemma_mouse_up_accept(
                s@,
                button,
                x,
                y,
                i1 as int,
                i2 as int,
                j1 as int,
                i3 as int,
                j2 as int,
            );
        }
        Some(a)
    } else {
        proof {
            assert forall|b: ActionAbs|
                #[trigger] spec_encode(b) == s@ && b is MouseUp && wf_action(b) implies false by {
                if let ActionAbs::MouseUp { button: bb, x: xb, y: yb } = b {
                    lemma_mouse_up_layout(s@, bb, xb, yb);
                    let bn = button_name(bb);
                    assert(s@[i1 as int] == bn[0]);
                    assert(s@.subrange(i1 as int, i1 + bq.len())[0] == s@[i1 as int]);
                    assert(bq[0] == button_name(button)[0]);
                    assert(bb == button);
                    assert(j1 == signed_end(s@, i2 as int));
                    assert(j2 == signed_end(s@, i3 as int));
                }
            }
        }
        None
    }
}

/// How the text of a stored wheel action lays out: four numbers, each at a
/// pinned position.
proof fn lemma_wheel_layout(w: Seq<char>, dxb: int, dyb: int, xb: int, yb: int)
    requires
        in_i32(dxb),
        in_i32(dyb),
        in_i32(xb),
        in_i32(yb),
        w == spec_encode(ActionAbs::Wheel { delta_x: dxb, delta_y: dyb, x: xb, y: yb }),
    ensures
        ({
            let pp = "{\"type\":\"wheel\",\"delta_x\":"@;
            let m1 = ",\"delta_y\":"@;
            let m2 = ",\"x\":"@;
            let m3 = ",\"y\":"@;
            let j1: int = pp.len() + spec_idec(dxb).len() as int;
            let i2: int = j1 + m1.len();
            let j2: int = i2 + spec_idec(dyb).len();
            let i3: int = j2 + m2.len();
            let j3: int = i3 + spec_idec(xb).len();
            let i4: int = j3 + m3.len();
            let j4: int = i4 + spec_idec(yb).len();
            &&& w.len() == j4 + 1
            &&& w.subrange(0, pp.len() as int) == pp
            &&& signed_at(w, pp.len() as int)
            &&& signed_val(w, pp.len() as int) == dxb
            &&& signed_end(w, pp.len() as int) == j1
            &&& w.subrange(j1, i2) == m1
            &&& signed_at(w, i2)
            &&& signed_val(w, i2) == dyb
            &&& signed_end(w, i2) == j2
            &&& w.subrange(j2, i3) == m2
            &&& signed_at(w, i3)
            &&& signed_val(w, i3) == xb
            &&& signed_end(w, i3) == j3
            &&& w.subrange(j3, i4) == m3
            &&& signed_at(w, i4)
            &&& signed_val(w, i4) == yb
            &&& signed_end(w, i4) == j4
            &&& w.subrange(j4, j4 + 1) == "}"@
        }),
{
    let pp = "{\"type\":\"wheel\",\"delta_x\":"@;
    let m1 = ",\"delta_y\":"@;
    let m2 = ",\"x\":"@;
    let m3 = ",\"y\":"@;
    let ee = "}"@;
    let j1: int = pp.len() + spec_idec(dxb).len() as int;
    let i2: int = j1 + m1.len();
    let j2: int = i2 + spec_idec(dyb).len();
    let i3: int = j2 + m2.len();
    let j3: int = i3 + spec_idec(xb).len();
    let i4: int = j3 + m3.len();
    let j4: int = i4 + spec_idec(yb).len();
    reveal_strlit("{\"type\":\"wheel\",\"delta_x\":");
    reveal_strlit(",\"delta_y\":");
    reveal_strlit(",\"x\":");
    reveal_strlit(",\"y\":");
    reveal_strlit("}");
    assert(w.subrange(0, pp.len() as int) =~= pp);
    assert(w.subrange(pp.len() as int, j1) =~= spec_idec(dxb));
    assert(w[j1] == m1[0]);
    lemma_signed_present(w, pp.len() as int, dxb);
    assert(w.subrange(j1, i2) =~= m1);
    assert(w.subrange(i2, j2) =~= spec_idec(dyb));
    assert(w[j2] == m2[0]);
    lemma_signed_present(w, i2, dyb);
    assert(w.subrange(j2, i3) =~= m2);
    assert(w.subrange(i3, j3) =~= spec_idec(xb));
    assert(w[j3] == m3[0]);
    lemma_signed_present(w, i3, xb);
    assert(w.subrange(j3, i4) =~= m3);
    assert(w.subrange(i4, j4) =~= spec_idec(yb));
    assert(w[j4] == ee[0]);
    lemma_signed_present(w, i4, yb);
    assert(w.subrange(j4, j4 + 1) =~= ee);
}

/// Pieces laid out in order reassemble into the stored text of a wheel
/// action.
proof fn lemma_wheel_accept(
    w: Seq<char>,
    dx: i32,
    dy: i32,
    x: i32,
    y: i32,
    j1: int,
    i2: int,
    j2: int,
    i3: int,
    j3: int,
    i4: int,
    j4: int,
)
    requires
        ({
            let pp = "{\"type\":\"wheel\",\"delta_x\":"@;
            &&& 0 <= pp.len() <= j1 <= i2 <= j2 <= i3 <= j3 <= i4 <= j4 < w.len()
            &&& w.subrange(0, pp.len() as int) == pp
            &&& w.subrange(pp.len() as int, j1) == spec_idec(dx as int)
            &&& w.subrange(j1, i2) == ",\"delta_y\":"@
            &&& w.subrange(i2, j2) == spec_idec(dy as int)
            &&& w.subrange(j2, i3) == ",\"x\":"@
            &&& w.subrange(i3, j3) == spec_idec(x as int)
            &&& w.subrange(j3, i4) == ",\"y\":"@
            &&& w.subrange(i4, j4) == spec_idec(y as int)
            &&& w.subrange(j4, j4 + "}"@.len()) == "}"@
            &&& j4 + "}"@.len() <= w.len()
            &&& w.len() == j4 + 1
        }),
    ensures
        w == spec_encode(
            ActionAbs::Wheel { delta_x: dx as int, delta_y: dy as int, x: x as int, y: y as int },
        ),
{
    let pp = "{\"type\":\"wheel\",\"delta_x\":"@;
    reveal_strlit("}");
    assert(w.subrange(j4, w.len() as int) == "}"@);
    assert(w =~= w.subrange(0, pp.len() as int) + w.subrange(pp.len() as int, j1) + w.subrange(
        j1,
        i2,
    ) + w.subrange(i2, j2) + w.subrange(j2, i3) + w.subrange(i3, j3) + w.subrange(j3, i4)
        + w.subrange(i4, j4) + w.subrange(j4, w.len() as int));
    assert(w.subrange(0, pp.len() as int) + w.subrange(pp.len() as int, j1) + w.subrange(j1, i2)
        + w.subrange(i2, j2) + w.subrange(j2, i3) + w.subrange(i3, j3) + w.subrange(j3, i4)
        + w.subrange(i4, j4) + w.subrange(j4, w.len() as int) =~= spec_encode(
        ActionAbs::Wheel { delta_x: dx as int, delta_y: dy as int, x: x as int, y: y as int },
    ));
}

/// Reads back an action stored with the `wheel` tag.
#[verifier::rlimit(100)]
fn decode_wheel(s: &str, n: usize) -> (r: Option<Action>)
    requires
        n == s@.len(),
    ensures
        r matches Some(a) ==> wf_action(a@) && s@ == spec_encode(a@) && a@ is Wheel,
        r is None ==> forall|b: ActionAbs|
            #[trigger] spec_encode(b) == s@ && b is Wheel && wf_action(b) ==> false,
{
    let p = "{\"type\":\"wheel\",\"delta_x\":";
    let m1 = ",\"delta_y\":";
    let m2 = ",\"x\":";
    let m3 = ",\"y\":";
    let e = "}";
    let pl = p.unicode_len();
    let m1l = m1.unicode_len();
    let m2l = m2.unicode_len();
    let m3l = m3.unicode_len();
    if !match_at(s, n, 0, p) {
        proof {
            assert forall|b: ActionAbs|
                #[trigger] spec_encode(b) == s@ && b is Wheel && wf_action(b) implies false by {
                if let ActionAbs::Wheel { delta_x: dxb, delta_y: dyb, x: xb, y: yb } = b {
                    lemma_wheel_layout(s@, dxb, dyb, xb, yb);
                }
            }
        }
        return None;
    }
    let i1 = pl;
    let parsed_dx = parse_signed(s, n, i1);
    if parsed_dx.is_none() {
        proof {
            assert forall|b: ActionAbs|
                #[trigger] spec_encode(b) == s@ && b is Wheel && wf_action(b) implies false by {
                if let ActionAbs::Wheel { delta_x: dxb, delta_y: dyb, x: xb, y: yb } = b {
                    lemma_wheel_layout(s@, dxb, dyb, xb, yb);
                }
            }
        }
        return None;
    }
    let (dx, j1) = parsed_dx.unwrap();
    if !match_at(s, n, j1, m1) {
        proof {
            assert forall|b: ActionAbs|
                #[trigger] spec_encode(b) == s@ && b is Wheel && wf_action(b) implies false by {
                if let ActionAbs::Wheel { delta_x: dxb, delta_y: dyb, x: xb, y: yb } = b {
                    lemma_wheel_layout(s@, dxb, dyb, xb, yb);
                    assert(j1 == signed_end(s@, i1 as int));
                }
            }
        }
        return None;
    }
    let i2 = j1 + m1l;
    let parsed_dy = parse_signed(s, n, i2);
    if parsed_dy.is_none() {
        proof {
            assert forall|b: ActionAbs|
                #[trigger] spec_encode(b) == s@ && b is Wheel && wf_action(b) implies false by {
                if let ActionAbs::Wheel { delta_x: dxb, delta_y: dyb, x: xb, y: yb } = b {
                    lemma_wheel_layout(s@, dxb, dyb, xb, yb);
                    assert(j1 == signed_end(s@, i1 as int));
                }
            }
        }
        return None;
    }
    let (dy, j2) = parsed_dy.unwrap();
    if !match_at(s, n, j2, m2) {
        proof {
            assert forall|b: ActionAbs|
                #[trigger] spec_encode(b) == s@ && b is Wheel && wf_action(b) implies false by {
                if let ActionAbs::Wheel { delta_x: dxb, delta_y: dyb, x: xb, y: yb } = b {
                    lemma_wheel_layout(s@, dxb, dyb, xb, yb);
                    assert(j1 == signed_end(s@, i1 as int));
                    assert(j2 == signed_end(s@, i2 as int));
                }
            }
        }
        return None;
    }
    let i3 = j2 + m2l;
    let parsed_x = parse_signed(s, n, i3);
    if parsed_x.is_none() {
        proof {
            assert forall|b: ActionAbs|
                #[trigger] spec_encode(b) == s@ && b is Wheel && wf_action(b) implies false by {
                if let ActionAbs::Wheel { delta_x: dxb, delta_y: dyb, x: xb, y: yb } = b {
                    lemma_wheel_layout(s@, dxb, dyb, xb, yb);
                    assert(j1 == signed_end(s@, i1 as int));
                    assert(j2 == signed_end(s@, i2 as int));
                }
            }
        }
        return None;
    }
    let (x, j3) = parsed_x.unwrap();
    if !match_at(s, n, j3, m3) {
        proof {
            assert forall|b: ActionAbs|
                #[trigger] spec_encode(b) == s@ && b is Wheel && wf_action(b) implies false by {
                if let ActionAbs::Wheel { delta_x: dxb, delta_y: dyb, x: xb, y: yb } = b {
                    lemma_wheel_layout(s@, dxb, dyb, xb, yb);
                    assert(j1 == signed_end(s@, i1 as int));
                    assert(j2 == signed_end(s@, i2 as int));
                    assert(j3 == signed_end(s@, i3 as int));
                }
            }
        }
        return None;
    }
    let i4 = j3 + m3l;
    let parsed_y = parse_signed(s, n, i4);
    if parsed_y.is_none() {
        proof {
            assert forall|b: ActionAbs|
                #[trigger] spec_encode(b) == s@ && b is Wheel && wf_action(b) implies false by {
                if let ActionAbs::Wheel { delta_x: dxb, delta_y: dyb, x: xb, y: yb } = b {
                    lemma_wheel_layout(s@, dxb, dyb, xb, yb);
                    assert(j1 == signed_end(s@, i1 as int));
                    assert(j2 == signed_end(s@, i2 as int));
                    assert(j3 == signed_end(s@, i3 as int));
                }
            }
        }
        return None;
    }
    let (y, j4) = parsed_y.unwrap();
    if match_at(s, n, j4, e) && n - j4 == 1 {
        let a = Action::Wheel { delta_x: dx, delta_y: dy, x, y };
        proof {
            lemma_wheel_accept(
                s@,
                dx,
                dy,
                x,
                y,
                j1 as int,
                i2 as int,
                j2 as int,
                i3 as int,
                j3 as int,
                i4 as int,
                j4 as int,
            );
        }
        Some(a)
    } else {
        proof {
            assert forall|b: ActionAbs|
                #[trigger] spec_encode(b) == s@ && b is Wheel && wf_action(b) implies false by {
                if let ActionAbs::Wheel { delta_x: dxb, delta_y: dyb, x: xb, y: yb } = b {
                    lemma_wheel_layout(s@, dxb, dyb, xb, yb);
                    assert(j1 == signed_end(s@, i1 as int));
                    assert(j2 == signed_end(s@, i2 as int));
                    assert(j3 == signed_end(s@, i3 as int));
                    assert(j4 == signed_end(s@, i4 as int));
                }
            }
        }
        None
    }
}

/// How the text of a stored key press lays out: the prefix, the label's
/// plain characters, then the closing quote and brace.
proof fn lemma_key_press_layout(w: Seq<char>, kb: Seq<char>)
    requires
        wf_key(kb),
        w == spec_encode(ActionAbs::KeyPress { key: kb }),
    ensures
        ({
            let pp = "{\"type\":\"key_press\",\"key\":\""@;
            let j1: int = pp.len() + kb.len() as int;
            &&& w.len() == j1 + 2
            &&& w.subrange(0, pp.len() as int) == pp
            &&& key_end(w, pp.len() as int) == j1
            &&& w.subrange(pp.len() as int, j1) == kb
            &&& w.subrange(j1, j1 + 2) == "\"}"@
        }),
{
    let pp = "{\"type\":\"key_press\",\"key\":\""@;
    let ee = "\"}"@;
    let j1: int = pp.len() + kb.len() as int;
    reveal_strlit("{\"type\":\"key_press\",\"key\":\"");
    reveal_strlit("\"}");
    assert(w.subrange(0, pp.len() as int) =~= pp);
    assert(w.subrange(pp.len() as int, j1) =~= kb);
    assert(w.subrange(j1, j1 + 2) =~= ee);
    assert(w[j1] == ee[0]);
    assert(!wf_key_char(w[j1]));
    assert(forall|t: int| pp.len() <= t < j1 ==> wf_key_char(#[trigger] w[t])) by {
        assert(forall|t: int| pp.len() <= t < j1 ==> w[t] == kb[t - pp.len()]);
    }
    lemma_key_end_determined(w, pp.len() as int, j1);
}

/// Reads back an action stored with the `key_press` tag.
fn decode_key_press(s: &str, n: usize) -> (r: Option<Action>)
    requires
        n == s@.len(),
    ensures
        r matches Some(a) ==> wf_action(a@) && s@ == spec_encode(a@) && a@ is KeyPress,
        r is None ==> forall|b: ActionAbs|
            #[trigger] spec_encode(b) == s@ && b is KeyPress && wf_action(b) ==> false,
{
    let p = "{\"type\":\"key_press\",\"key\":\"";
    let e = "\"}";
    let pl = p.unicode_len();
    if !match_at(s, n, 0, p) {
        proof {
            assert forall|b: ActionAbs|
                #[trigger] spec_encode(b) == s@ && b is KeyPress && wf_action(b) implies false by {
                if let ActionAbs::KeyPress { key: kb } = b {
                    lemma_key_press_layout(s@, kb);
                }
            }
        }
        return None;
    }
    let i1 = pl;
    let j1 = scan_key(s, n, i1);
    if match_at(s, n, j1, e) && n - j1 == 2 {
        let key_str = s.substring_char(i1, j1);
        let key = key_str.to_owned();
        let a = Action::KeyPress { key };
        proof {
            lemma_key_end_bounds(s@, i1 as int);
            assert(wf_key(key@));
            reveal_strlit("\"}");
            assert(s@.subrange(0, i1 as int) == p@);
            assert(s@.subrange(j1 as int, n as int) == e@);
            assert(s@ =~= p@ + key@ + e@);
        }
        Some(a)
    } else {
        proof {
            assert forall|b: ActionAbs|
                #[trigger] spec_encode(b) == s@ && b is KeyPress && wf_action(b) implies false by {
                if let ActionAbs::KeyPress { key: kb } = b {
                    lemma_key_press_layout(s@, kb);
                    assert(j1 == i1 + kb.len());
                    assert(s@.subrange(j1 as int, j1 + e@.len()) =~= e@);
                    assert(n - j1 == 2);
                }
            }
        }
        None
    }
}

/// Reads an action back from its storage text. The result is exactly the
/// well-formed action whose storage text the input is, and `None` when the
/// input is no such text.
pub fn decode_action(s: &str) -> (r: Option<Action>)
    ensures
        r matches Some(a) ==> wf_action(a@) && s@ == spec_encode(a@),
        r is None ==> forall|b: ActionAbs| wf_action(b) ==> s@ != #[trigger] spec_encode(b),
{
    let n = s.unicode_len();
    let r1 = decode_mouse_move(s, n);
    if r1.is_some() {
        return r1;
    }
    let r2 = decode_mouse_down(s, n);
    if r2.is_some() {
        return r2;
    }
    let r3 = decode_mouse_up(s, n);
    if r3.is_some() {
        return r3;
    }
    let r4 = decode_wheel(s, n);
    if r4.is_some() {
        return r4;
    }
    let r5 = decode_key_press(s, n);
    if r5.is_some() {
        return r5;
    }
    proof {
        assert forall|b: ActionAbs| wf_action(b) implies s@ != spec_encode(b) by {
            if s@ == spec_encode(b) {
                match b {
                    ActionAbs::MouseMove { .. } => {},
                    ActionAbs::MouseDown { .. } => {},
                    ActionAbs::MouseUp { .. } => {},
                    ActionAbs::Wheel { .. } => {},
                    ActionAbs::KeyPress { .. } => {},
                }
            }
        }
    }
    None
}

/// How the text of a stored mouse_move lays out: two numbers at pinned
/// positions.
proof fn lemma_mouse_move_layout(w: Seq<char>, xb: int, yb: int)
    requires
        in_i32(xb),
        in_i32(yb),
        w == spec_encode(ActionAbs::MouseMove { x: xb, y: yb }),
    ensures
        ({
            let pp = "{\"type\":\"mouse_move\",\"x\":"@;
            let j1: int = pp.len() + spec_idec(xb).len() as int;
            let i2: int = j1 + ",\"y\":"@.len();
            let j2: int = i2 + spec_idec(yb).len();
            &&& w.len() == j2 + 1
            &&& w.subrange(0, pp.len() as int) == pp
            &&& signed_at(w, pp.len() as int)
            &&& signed_val(w, pp.len() as int) == xb
            &&& signed_end(w, pp.len() as int) == j1
            &&& w.subrange(j1, i2) == ",\"y\":"@
            &&& signed_at(w, i2)
            &&& signed_val(w, i2) == yb
            &&& signed_end(w, i2) == j2
            &&& w.subrange(j2, j2 + 1) == "}"@
        }),
{
    let pp = "{\"type\":\"mouse_move\",\"x\":"@;
    let mm = ",\"y\":"@;
    let ee = "}"@;
    let j1: int = pp.len() + spec_idec(xb).len() as int;
    let i2: int = j1 + mm.len();
    let j2: int = i2 + spec_idec(yb).len();
    reveal_strlit("{\"type\":\"mouse_move\",\"x\":");
    reveal_strlit(",\"y\":");
    reveal_strlit("}");
    assert(w.subrange(0, pp.len() as int) =~= pp);
    assert(w.subrange(pp.len() as int, j1) =~= spec_idec(xb));
    assert(w[j1] == mm[0]);
    lemma_signed_present(w, pp.len() as int, xb);
    assert(w.subrange(j1, i2) =~= mm);
    assert(w.subrange(i2, j2) =~= spec_idec(yb));
    assert(w[j2] == ee[0]);
    lemma_signed_present(w, i2, yb);
    assert(w.subrange(j2, j2 + 1) =~= ee);
}

/// The variant-discriminating characters of a stored action's text.
spec fn tag_char_9(a: ActionAbs) -> char {
    match a {
        ActionAbs::MouseMove { .. } => 'm',
        ActionAbs::MouseDown { .. } => 'm',
        ActionAbs::MouseUp { .. } => 'm',
        ActionAbs::Wheel { .. } => 'w',
        ActionAbs::KeyPress { .. } => 'k',
    }
}

spec fn tag_char_15(a: ActionAbs) -> char {
    match a {
        ActionAbs::MouseMove { .. } => 'm',
        ActionAbs::MouseDown { .. } => 'd',
        ActionAbs::MouseUp { .. } => 'u',
        ActionAbs::Wheel { .. } => ',',
        ActionAbs::KeyPress { .. } => 'e',
    }
}

/// The characters at positions 9 and 15 of a stored action's text name
/// its variant.
proof fn lemma_enc_tags(a: ActionAbs)
    requires
        wf_action(a),
    ensures
        spec_encode(a).len() > 15,
        spec_encode(a)[9] == tag_char_9(a),
        spec_encode(a)[15] == tag_char_15(a),
{
    let w = spec_encode(a);
    match a {
        ActionAbs::MouseMove { x, y } => {
            let pp = "{\"type\":\"mouse_move\",\"x\":"@;
            reveal_strlit("{\"type\":\"mouse_move\",\"x\":");
            assert(w[9] == pp[9]);
            assert(w[15] == pp[15]);
        },
        ActionAbs::MouseDown { button, x, y } => {
            let pp = "{\"type\":\"mouse_down\",\"button\":\""@;
            reveal_strlit("{\"type\":\"mouse_down\",\"button\":\"");
            assert(w[9] == pp[9]);
            assert(w[15] == pp[15]);
        },
        ActionAbs::MouseUp { button, x, y } => {
            let pp = "{\"type\":\"mouse_up\",\"button\":\""@;
            reveal_strlit("{\"type\":\"mouse_up\",\"button\":\"");
            assert(w[9] == pp[9]);
            assert(w[15] == pp[15]);
        },
        ActionAbs::Wheel { delta_x, delta_y, x, y } => {
            let pp = "{\"type\":\"wheel\",\"delta_x\":"@;
            reveal_strlit("{\"type\":\"wheel\",\"delta_x\":");
            assert(w[9] == pp[9]);
            assert(w[15] == pp[15]);
        },
        ActionAbs::KeyPress { key } => {
            let pp = "{\"type\":\"key_press\",\"key\":\""@;
            reveal_strlit("{\"type\":\"key_press\",\"key\":\"");
            assert(w[9] == pp[9]);
            assert(w[15] == pp[15]);
        },
    }
}

/// Two distinct well-formed actions never share one storage text:
/// decoding is unambiguous.
pub proof fn lemma_encode_injective(a: ActionAbs, b: ActionAbs)
    requires
        wf_action(a),
        wf_action(b),
        spec_encode(a) == spec_encode(b),
    ensures
        a == b,
{
    let w = spec_encode(a);
    lemma_enc_tags(a);
    lemma_enc_tags(b);
    match (a, b) {
        (ActionAbs::MouseMove { x: xa, y: ya }, ActionAbs::MouseMove { x: xb, y: yb }) => {
            lemma_mouse_move_layout(w, xa, ya);
            lemma_mouse_move_layout(w, xb, yb);
        },
        (
            ActionAbs::MouseDown { button: ba, x: xa, y: ya },
            ActionAbs::MouseDown { button: bb, x: xb, y: yb },
        ) => {
            lemma_mouse_down_layout(w, ba, xa, ya);
            lemma_mouse_down_layout(w, bb, xb, yb);
            reveal_strlit("Left");
            reveal_strlit("Right");
            reveal_strlit("Middle");
            assert(button_name(ba)[0] == button_name(bb)[0]);
            assert(ba == bb);
        },
        (
            ActionAbs::MouseUp { button: ba, x: xa, y: ya },
            ActionAbs::MouseUp { button: bb, x: xb, y: yb },
        ) => {
            lemma_mouse_up_layout(w, ba, xa, ya);
            lemma_mouse_up_layout(w, bb, xb, yb);
            reveal_strlit("Left");
            reveal_strlit("Right");
            reveal_strlit("Middle");
            assert(button_name(ba)[0] == button_name(bb)[0]);
            assert(ba == bb);
        },
        (
            ActionAbs::Wheel { delta_x: dxa, delta_y: dya, x: xa, y: ya },
            ActionAbs::Wheel { delta_x: dxb, delta_y: dyb, x: xb, y: yb },
        ) => {
            lemma_wheel_layout(w, dxa, dya, xa, ya);
            lemma_wheel_layout(w, dxb, dyb, xb, yb);
        },
        (ActionAbs::KeyPress { key: ka }, ActionAbs::KeyPress { key: kb }) => {
            lemma_key_press_layout(w, ka);
            lemma_key_press_layout(w, kb);
            let pp = "{\"type\":\"key_press\",\"key\":\""@;
            assert(ka =~= kb) by {
                assert(w.subrange(pp.len() as int, pp.len() + ka.len() as int) == ka);
                assert(w.subrange(pp.len() as int, pp.len() + kb.len() as int) == kb);
            }
        },
        _ => {
            assert(tag_char_9(a) == tag_char_9(b));
            assert(tag_char_15(a) == tag_char_15(b));
        },
    }
}

} // verus!
