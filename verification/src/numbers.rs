//! Decimal text: parsing integers and fixed-point amounts, and printing
//! integers.
//!
//! Upstream extracts carry every value as text.  Amounts (nutrient values
//! per 100 reference units, serving sizes) are decimal fractions; the
//! library holds them as integers scaled by one million ("micro units"),
//! so that derived values stay exact and free of floating point.

use vstd::prelude::*;

verus! {

pub open spec fn is_digit(c: char) -> bool {
    48 <= c as u32 <= 57
}

pub open spec fn digit_val(c: char) -> nat {
    (c as u32 - 48) as nat
}

pub open spec fn all_digits(s: Seq<char>) -> bool {
    forall|i: int| 0 <= i < s.len() ==> is_digit(#[trigger] s[i])
}

/// Value of a string of decimal digits, most significant first.
pub open spec fn dec_val(s: Seq<char>) -> nat
    decreases s.len(),
{
    if s.len() == 0 {
        0
    } else {
        dec_val(s.drop_last()) * 10 + digit_val(s.last())
    }
}

pub open spec fn pow10(n: nat) -> nat
    decreases n,
{
    if n == 0 {
        1
    } else {
        10 * pow10((n - 1) as nat)
    }
}

/// A digit string's value is below ten to the number of digits.
pub proof fn lemma_dec_val_bound(s: Seq<char>)
    requires
        all_digits(s),
    ensures
        dec_val(s) < pow10(s.len() as nat),
    decreases s.len(),
{
    if s.len() > 0 {
        assert(all_digits(s.drop_last())) by {
            assert(forall|i: int| 0 <= i < s.len() - 1 ==> s.drop_last()[i] == s[i]);
        }
        lemma_dec_val_bound(s.drop_last());
        assert(digit_val(s.last()) <= 9);
    }
}

/// Extending a digit string on the right never lowers its value.
pub proof fn lemma_dec_val_take_le(s: Seq<char>, i: int)
    requires
        0 <= i <= s.len(),
    ensures
        dec_val(s.take(i)) <= dec_val(s),
    decreases s.len() - i,
{
    if i < s.len() {
        assert(s.take(i + 1).drop_last() =~= s.take(i));
        assert(dec_val(s.take(i + 1)) == dec_val(s.take(i)) * 10 + digit_val(s.take(i + 1).last()));
        lemma_dec_val_take_le(s, i + 1);
    } else {
        assert(s.take(i) =~= s);
    }
}

/// Parses an unsigned decimal digit string.  Returns the value exactly
/// when the text is one or more digits and the value fits in a `u64`.
pub fn parse_u64(s: &str) -> (r: Option<u64>)
    ensures
        r is Some <==> s@.len() > 0 && all_digits(s@) && dec_val(s@) <= u64::MAX,
        r matches Some(v) ==> v == dec_val(s@),
{
    let n = s.unicode_len();
    if n == 0 {
        return None;
    }
    let mut acc: u64 = 0;
    let mut i: usize = 0;
    assert(s@.take(0) =~= Seq::<char>::empty());
    while i < n
        invariant
            0 <= i <= n,
            n == s@.len(),
            all_digits(s@.take(i as int)),
            acc == dec_val(s@.take(i as int)),
        decreases n - i,
    {
        let c = s.get_char(i);
        let cv = c as u32;
        if cv < 48 || cv > 57 {
            assert(!is_digit(s@[i as int]));
            return None;
        }
        let d: u64 = (cv - 48) as u64;
        proof {
            assert(s@.take(i + 1).drop_last() =~= s@.take(i as int));
            assert(s@.take(i + 1).last() == s@[i as int]);
        }
        if acc > (u64::MAX - d) / 10 {
            proof {
                assert(dec_val(s@.take(i + 1)) == acc * 10 + d);
                assert(acc * 10 + d > u64::MAX) by (nonlinear_arith)
                    requires
                        acc > (u64::MAX - d) / 10,
                        d <= 9,
                ;
                lemma_dec_val_take_le(s@, i + 1);
            }
            return None;
        }
        assert(acc * 10 + d <= u64::MAX) by (nonlinear_arith)
            requires
                acc <= (u64::MAX - d) / 10,
                d <= 9,
        ;
        acc = acc * 10 + d;
        i = i + 1;
    }
    assert(s@.take(n as int) =~= s@);
    Some(acc)
}

/// Where the first `.` stands in the text, or the length if there is none.
pub open spec fn first_dot(s: Seq<char>) -> int
    decreases s.len(),
{
    if s.len() == 0 {
        0
    } else if s[0] == '.' {
        0
    } else {
        1 + first_dot(s.drop_first())
    }
}

pub proof fn lemma_first_dot(s: Seq<char>)
    ensures
        0 <= first_dot(s) <= s.len(),
        first_dot(s) < s.len() ==> s[first_dot(s)] == '.',
        forall|j: int| 0 <= j < first_dot(s) ==> s[j] != '.',
    decreases s.len(),
{
    if s.len() > 0 && s[0] != '.' {
        lemma_first_dot(s.drop_first());
        assert forall|j: int| 0 <= j < first_dot(s) implies s[j] != '.' by {
            if j > 0 {
                assert(s[j] == s.drop_first()[j - 1]);
            }
        }
    }
}

/// The text is a well-formed unsigned decimal fraction: digits, at most
/// one dot, and at least one digit on one side of it.
pub open spec fn micro_valid(s: Seq<char>) -> bool {
    let p = first_dot(s);
    &&& s.len() > 0
    &&& all_digits(s.take(p))
    &&& (p == s.len() || all_digits(s.skip(p + 1)))
    &&& (p > 0 || p + 1 < s.len())
}

/// Value of the fraction digits in micro units; digits beyond the sixth
/// are truncated.
pub open spec fn frac_micro(s: Seq<char>) -> nat {
    if s.len() >= 6 {
        dec_val(s.take(6))
    } else {
        dec_val(s) * pow10((6 - s.len()) as nat)
    }
}

/// Value of a well-formed unsigned decimal fraction in micro units.
pub open spec fn micro_val(s: Seq<char>) -> nat {
    let p = first_dot(s);
    dec_val(s.take(p)) * 1000000 + frac_micro(if p == s.len() {
        Seq::empty()
    } else {
        s.skip(p + 1)
    })
}

proof fn lemma_first_dot_at(s: Seq<char>, i: int)
    requires
        0 <= i <= s.len(),
        forall|j: int| 0 <= j < i ==> s[j] != '.',
        i < s.len() ==> s[i] == '.',
    ensures
        first_dot(s) == i,
    decreases i,
{
    if s.len() > 0 && s[0] != '.' {
        assert(i > 0);
        assert forall|j: int| 0 <= j < i - 1 implies s.drop_first()[j] != '.' by {
            assert(s.drop_first()[j] == s[j + 1]);
        }
        lemma_first_dot_at(s.drop_first(), i - 1);
    }
}


proof fn lemma_pow10_pos(n: nat)
    ensures
        pow10(n) >= 1,
    decreases n,
{
    if n > 0 {
        lemma_pow10_pos((n - 1) as nat);
    }
}

pub proof fn lemma_pow10_le(a: nat, b: nat)
    requires
        a <= b,
    ensures
        pow10(a) <= pow10(b),
    decreases b,
{
    if a < b {
        lemma_pow10_le(a, (b - 1) as nat);
        lemma_pow10_pos((b - 1) as nat);
    }
}

proof fn lemma_pow10_is_pow(n: nat)
    ensures
        pow10(n) == vstd::arithmetic::power::pow(10, n),
    decreases n,
{
    reveal(vstd::arithmetic::power::pow);
    if n > 0 {
        lemma_pow10_is_pow((n - 1) as nat);
    }
}

proof fn lemma_pow10_mul(a: nat, b: nat)
    ensures
        pow10(a) * pow10(b) == pow10(a + b),
{
    lemma_pow10_is_pow(a);
    lemma_pow10_is_pow(b);
    lemma_pow10_is_pow(a + b);
    vstd::arithmetic::power::lemma_pow_adds(10, a, b);
}

/// Like `parse_u64` but maps empty text to zero.
fn parse_u64_or_zero(s: &str) -> (r: Option<u64>)
    ensures
        r is Some <==> all_digits(s@) && dec_val(s@) <= u64::MAX,
        r matches Some(v) ==> v == dec_val(s@),
{
    let n = s.unicode_len();
    if n == 0 {
        assert(s@ =~= Seq::<char>::empty());
        return Some(0);
    }
    parse_u64(s)
}

/// Value of fraction digits in micro units; only the first six count.
fn parse_frac_micro(f: &str) -> (r: Option<u64>)
    ensures
        r is Some <==> all_digits(f@),
        r matches Some(v) ==> v == frac_micro(f@) && v <= 999999,
{
    let n = f.unicode_len();
    let mut facc: u64 = 0;
    let mut i: usize = 0;
    assert(f@.take(0) =~= Seq::<char>::empty());
    while i < n
        invariant
            0 <= i <= n,
            n == f@.len(),
            all_digits(f@.take(i as int)),
            facc == dec_val(f@.take(if i <= 6 {
                i as int
            } else {
                6
            })),
            facc <= 999999,
        decreases n - i,
    {
        let c = f.get_char(i);
        let cv = c as u32;
        if cv < 48 || cv > 57 {
            assert(!is_digit(f@[i as int]));
            return None;
        }
        let d: u64 = (cv - 48) as u64;
        proof {
            assert(f@.take(i + 1).drop_last() =~= f@.take(i as int));
            assert(f@.take(i + 1).last() == f@[i as int]);
        }
        if i < 6 {
            proof {
                lemma_dec_val_bound(f@.take(i as int));
                lemma_pow10_le(f@.take(i as int).len() as nat, 5);
                reveal_with_fuel(pow10, 7);
            }
            facc = facc * 10 + d;
        } else {
            proof {
                assert(f@.take(i + 1).take(6) =~= f@.take(6));
            }
        }
        i = i + 1;
    }
    assert(f@.take(n as int) =~= f@);
    if n >= 6 {
        return Some(facc);
    }
    // scale a short fraction up to six digits
    proof {
        lemma_dec_val_bound(f@);
        assert(pow10(0) == 1);
        assert(facc == dec_val(f@));
        assert(dec_val(f@) * pow10(0) == dec_val(f@)) by (nonlinear_arith)
            requires
                pow10(0) == 1,
        ;
    }
    let mut k = n;
    while k < 6
        invariant
            n <= k <= 6,
            n == f@.len(),
            n < 6,
            all_digits(f@),
            facc == dec_val(f@) * pow10((k - n) as nat),
            facc < pow10(k as nat),
        decreases 6 - k,
    {
        proof {
            let dv = dec_val(f@);
            let pw = pow10((k - n) as nat);
            lemma_pow10_le(k as nat, 5);
            reveal_with_fuel(pow10, 7);
            assert(facc * 10 < pow10((k + 1) as nat)) by (nonlinear_arith)
                requires
                    facc < pow10(k as nat),
                    pow10((k + 1) as nat) == 10 * pow10(k as nat),
            ;
            assert(dv * pw * 10 == dv * (pw * 10)) by (nonlinear_arith);
            assert(pow10((k + 1 - n) as nat) == pw * 10) by {
                lemma_pow10_mul((k - n) as nat, 1);
                reveal_with_fuel(pow10, 2);
            }
        }
        facc = facc * 10;
        k = k + 1;
    }
    proof {
        reveal_with_fuel(pow10, 7);
        assert(facc <= 999999);
    }
    assert(facc == frac_micro(f@));
    Some(facc)
}

/// Parses an unsigned decimal fraction into micro units.  Fraction
/// digits beyond the sixth are truncated.
pub fn parse_micro_unsigned(s: &str) -> (r: Option<u64>)
    ensures
        r is Some <==> micro_valid(s@) && micro_val(s@) <= u64::MAX,
        r matches Some(v) ==> v == micro_val(s@),
{
    let n = s.unicode_len();
    proof {
        lemma_first_dot(s@);
    }
    // locate the first dot
    let mut p: usize = 0;
    while p < n && s.get_char(p) as u32 != 46
        invariant
            0 <= p <= n,
            n == s@.len(),
            forall|j: int| 0 <= j < p ==> s@[j] != '.',
        decreases n - p,
    {
        assert(s@[p as int] != '.');
        p = p + 1;
    }
    proof {
        if p < n {
            vstd::utf8::char_u32_cast(s@[p as int], s@[p as int] as u32);
        }
        lemma_first_dot_at(s@, p as int);
    }
    if p == 0 && p + 1 >= n {
        // empty text, or a lone dot: no digit anywhere
        return None;
    }
    let whole_str = s.substring_char(0, p);
    let frac_str = if p < n {
        s.substring_char(p + 1, n)
    } else {
        s.substring_char(n, n)
    };
    assert(whole_str@ =~= s@.take(p as int));
    assert(p < n ==> frac_str@ =~= s@.skip(p + 1));
    assert(p == n ==> frac_str@ =~= Seq::<char>::empty());
    let w = match parse_u64_or_zero(whole_str) {
        Some(w) => w,
        None => {
            proof {
                if all_digits(s@.take(p as int)) {
                    // the whole part alone already exceeds the bound
                    let dv = dec_val(s@.take(p as int));
                    assert(dv * 1000000 >= dv * 1) by (nonlinear_arith)
                        requires
                            dv >= 0,
                    ;
                }
            }
            return None;
        },
    };
    let f = match parse_frac_micro(frac_str) {
        Some(f) => f,
        None => {
            return None;
        },
    };
    // combine, watching the machine bound
    if w > (u64::MAX - f) / 1000000 {
        proof {
            assert(w * 1000000 + f > u64::MAX) by (nonlinear_arith)
                requires
                    w > (u64::MAX - f) / 1000000,
                    f <= 999999,
            ;
        }
        return None;
    }
    assert(w * 1000000 + f <= u64::MAX) by (nonlinear_arith)
        requires
            w <= (u64::MAX - f) / 1000000,
            f <= 999999,
    ;
    Some(w * 1000000 + f)
}


/// The text is an optionally negated decimal integer.
pub open spec fn int_dec_valid(s: Seq<char>) -> bool {
    if s.len() > 0 && s[0] == '-' {
        s.len() > 1 && all_digits(s.drop_first())
    } else {
        s.len() > 0 && all_digits(s)
    }
}

pub open spec fn int_dec_val(s: Seq<char>) -> int {
    if s.len() > 0 && s[0] == '-' {
        -(dec_val(s.drop_first()) as int)
    } else {
        dec_val(s) as int
    }
}

/// Parses a signed decimal integer.  Magnitudes beyond `i32::MAX` are
/// rejected as out of range.
pub fn parse_i32(s: &str) -> (r: Option<i32>)
    ensures
        r is Some <==> int_dec_valid(s@) && -(i32::MAX as int) <= int_dec_val(s@) <= (
        i32::MAX as int),
        r matches Some(v) ==> v as int == int_dec_val(s@),
{
    let n = s.unicode_len();
    if n > 0 && s.get_char(0) as u32 == 45 {
        proof {
            vstd::utf8::char_u32_cast(s@[0], 45);
        }
        assert(s@[0] == '-');
        let rest = s.substring_char(1, n);
        assert(rest@ =~= s@.drop_first());
        match parse_u64(rest) {
            Some(m) => {
                if m <= 0x7fffffff {
                    Some(-(m as i64) as i32)
                } else {
                    None
                }
            },
            None => None,
        }
    } else {
        assert(n > 0 ==> s@[0] != '-');
        match parse_u64(s) {
            Some(m) => {
                if m <= 0x7fffffff {
                    Some(m as i32)
                } else {
                    None
                }
            },
            None => None,
        }
    }
}

/// The text is an optionally negated decimal fraction.
pub open spec fn micro_signed_valid(s: Seq<char>) -> bool {
    if s.len() > 0 && s[0] == '-' {
        micro_valid(s.drop_first())
    } else {
        micro_valid(s)
    }
}

pub open spec fn micro_signed_val(s: Seq<char>) -> int {
    if s.len() > 0 && s[0] == '-' {
        -(micro_val(s.drop_first()) as int)
    } else {
        micro_val(s) as int
    }
}

/// Parses a signed decimal fraction into micro units.  Magnitudes
/// beyond `i64::MAX` micro units are rejected as out of range.
pub fn parse_micro(s: &str) -> (r: Option<i64>)
    ensures
        r is Some <==> micro_signed_valid(s@) && -(i64::MAX as int) <= micro_signed_val(s@) <= (
        i64::MAX as int),
        r matches Some(v) ==> v as int == micro_signed_val(s@),
{
    let n = s.unicode_len();
    if n > 0 && s.get_char(0) as u32 == 45 {
        proof {
            vstd::utf8::char_u32_cast(s@[0], 45);
        }
        assert(s@[0] == '-');
        let rest = s.substring_char(1, n);
        assert(rest@ =~= s@.drop_first());
        match parse_micro_unsigned(rest) {
            Some(m) => {
                if m <= 0x7fffffffffffffff {
                    Some(-(m as i64))
                } else {
                    None
                }
            },
            None => None,
        }
    } else {
        assert(n > 0 ==> s@[0] != '-');
        match parse_micro_unsigned(s) {
            Some(m) => {
                if m <= 0x7fffffffffffffff {
                    Some(m as i64)
                } else {
                    None
                }
            },
            None => None,
        }
    }
}

pub open spec fn digit_char(d: nat) -> char {
    ((48 + d) as u32) as char
}

/// Decimal text of an unsigned number, most significant digit first.
pub open spec fn dec_str(n: nat) -> Seq<char>
    decreases n,
{
    if n < 10 {
        seq![digit_char(n)]
    } else {
        dec_str(n / 10).push(digit_char(n % 10))
    }
}

fn push_digit(out: &mut String, d: u64)
    requires
        d <= 9,
    ensures
        final(out)@ == old(out)@ + seq![digit_char(d as nat)],
{
    proof {
        vstd::utf8::char_u32_cast('0', 48);
        vstd::utf8::char_u32_cast('1', 49);
        vstd::utf8::char_u32_cast('2', 50);
        vstd::utf8::char_u32_cast('3', 51);
        vstd::utf8::char_u32_cast('4', 52);
        vstd::utf8::char_u32_cast('5', 53);
        vstd::utf8::char_u32_cast('6', 54);
        vstd::utf8::char_u32_cast('7', 55);
        vstd::utf8::char_u32_cast('8', 56);
        vstd::utf8::char_u32_cast('9', 57);
        reveal_strlit("0");
        reveal_strlit("1");
        reveal_strlit("2");
        reveal_strlit("3");
        reveal_strlit("4");
        reveal_strlit("5");
        reveal_strlit("6");
        reveal_strlit("7");
        reveal_strlit("8");
        reveal_strlit("9");
    }
    match d {
        0 => {
            assert("0"@ =~= seq![digit_char(0)]);
            out.append("0");
        },
        1 => {
            assert("1"@ =~= seq![digit_char(1)]);
            out.append("1");
        },
        2 => {
            assert("2"@ =~= seq![digit_char(2)]);
            out.append("2");
        },
        3 => {
            assert("3"@ =~= seq![digit_char(3)]);
            out.append("3");
        },
        4 => {
            assert("4"@ =~= seq![digit_char(4)]);
            out.append("4");
        },
        5 => {
            assert("5"@ =~= seq![digit_char(5)]);
            out.append("5");
        },
        6 => {
            assert("6"@ =~= seq![digit_char(6)]);
            out.append("6");
        },
        7 => {
            assert("7"@ =~= seq![digit_char(7)]);
            out.append("7");
        },
        8 => {
            assert("8"@ =~= seq![digit_char(8)]);
            out.append("8");
        },
        _ => {
            assert(d == 9);
            assert("9"@ =~= seq![digit_char(9)]);
            out.append("9");
        },
    }
}

fn push_dec_str(out: &mut String, n: u64)
    ensures
        final(out)@ == old(out)@ + dec_str(n as nat),
    decreases n,
{
    if n < 10 {
        push_digit(out, n);
    } else {
        push_dec_str(out, n / 10);
        push_digit(out, n % 10);
        assert(old(out)@ + dec_str((n / 10) as nat) + seq![digit_char((n % 10) as nat)] =~= old(
            out,
        )@ + dec_str(n as nat));
    }
}

/// Decimal text of an unsigned number.
pub fn u64_to_string(n: u64) -> (r: String)
    ensures
        r@ == dec_str(n as nat),
{
    let mut out = String::new();
    push_dec_str(&mut out, n);
    assert(out@ =~= dec_str(n as nat));
    out
}

/// Decimal text of a signed number: a minus sign, then the digits.
pub open spec fn int_str(v: int) -> Seq<char> {
    if v < 0 {
        seq!['-'] + dec_str((-v) as nat)
    } else {
        dec_str(v as nat)
    }
}

/// Decimal text of a signed number.
pub fn i32_to_string(v: i32) -> (r: String)
    ensures
        r@ == int_str(v as int),
{
    let mut out = String::new();
    let w: i64 = v as i64;
    if w < 0 {
        proof {
            reveal_strlit("-");
        }
        out.append("-");
        assert(out@ =~= seq!['-']);
        push_dec_str(&mut out, (-w) as u64);
        assert(out@ =~= int_str(v as int));
    } else {
        push_dec_str(&mut out, w as u64);
        assert(out@ =~= int_str(v as int));
    }
    out
}

} // verus!
