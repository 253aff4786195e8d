//! Decimal and hexadecimal text: parsing with per-field fallback in mind,
//! and rendering that is the exact inverse of parsing.
//!
//! Fractions ("0.6", the remainder of a relative position such as "r0.5")
//! are held in millionths of a unit, so that all geometry is integer
//! arithmetic.  The integer part of a fraction is bounded by 999 and at most
//! six fractional digits are significant; text outside those bounds does not
//! parse, and the caller falls back as it would for any malformed value.

use vstd::prelude::*;

verus! {

// ===== digits =====

pub open spec fn is_digit(c: char) -> bool {
    48 <= (c as u32) <= 57
}

pub open spec fn digit_val(c: char) -> int {
    (c as u32) - 48
}

/// The character for a decimal digit value.
pub open spec fn digit_char(d: int) -> char {
    ((48 + d) as u8) as char
}

/// The character for a hexadecimal digit value, upper case.
pub open spec fn hex_char(d: int) -> char {
    if d < 10 {
        ((48 + d) as u8) as char
    } else {
        ((55 + d) as u8) as char
    }
}

pub open spec fn all_digits(s: Seq<char>) -> bool {
    forall|j: int| 0 <= j < s.len() ==> is_digit(#[trigger] s[j])
}

/// The value of a sequence of decimal digits.
pub open spec fn digits_val(s: Seq<char>) -> int
    decreases s.len(),
{
    if s.len() == 0 {
        0
    } else {
        digits_val(s.drop_last()) * 10 + digit_val(s[s.len() - 1])
    }
}

pub proof fn lemma_digits_val_nonneg(s: Seq<char>)
    requires
        all_digits(s),
    ensures
        digits_val(s) >= 0,
    decreases s.len(),
{
    if s.len() > 0 {
        assert(all_digits(s.drop_last()));
        lemma_digits_val_nonneg(s.drop_last());
    }
}

// ===== bounded unsigned parsing =====

/// The value of `s` when it is a non-empty run of digits whose value is at
/// most `max`; `None` otherwise.
pub open spec fn spec_parse_bounded_nat(s: Seq<char>, max: int) -> Option<u32> {
    if s.len() > 0 && all_digits(s) && digits_val(s) <= max {
        Some(digits_val(s) as u32)
    } else {
        None
    }
}

pub fn parse_bounded_nat(v: &Vec<char>, max: u32) -> (r: Option<u32>)
    ensures
        r == spec_parse_bounded_nat(v@, max as int),
        r matches Some(n) ==> n <= max,
{
    let mut acc: u64 = 0;
    let mut i: usize = 0;
    while i < v.len()
        invariant
            i <= v@.len(),
            all_digits(v@.subrange(0, i as int)),
            digits_val(v@.subrange(0, i as int)) <= max ==> acc == digits_val(
                v@.subrange(0, i as int),
            ),
            digits_val(v@.subrange(0, i as int)) > max ==> acc > max,
            acc <= (max as u64) * 10 + 9,
        decreases v@.len() - i,
    {
        let c = v[i];
        let cu = c as u32;
        if cu < 48 || cu > 57 {
            proof {
                assert(!is_digit(v@[i as int]));
            }
            return None;
        }
        let d = cu - 48;
        proof {
            let p = v@.subrange(0, i as int);
            let q = v@.subrange(0, i + 1);
            assert(q.drop_last() =~= p);
            assert(q[q.len() - 1] == v@[i as int]);
            lemma_digits_val_nonneg(p);
        }
        if acc <= max as u64 {
            acc = acc * 10 + d as u64;
        }
        i += 1;
    }
    proof {
        assert(v@.subrange(0, v@.len() as int) =~= v@);
    }
    if v.len() == 0 {
        return None;
    }
    if acc <= max as u64 {
        Some(acc as u32)
    } else {
        None
    }
}

// ===== signed 32-bit parsing =====

/// The value of `s` as an optionally signed decimal integer within `i32`
/// range; `None` on any other text.
pub open spec fn spec_parse_i32(s: Seq<char>) -> Option<i32> {
    if s.len() == 0 {
        None
    } else {
        let neg = s[0] == '-';
        let signed = s[0] == '-' || s[0] == '+';
        let rest = if signed {
            s.drop_first()
        } else {
            s
        };
        if rest.len() == 0 || !all_digits(rest) {
            None
        } else if neg && digits_val(rest) <= 2147483648 {
            Some((-digits_val(rest)) as i32)
        } else if !neg && digits_val(rest) <= 2147483647 {
            Some(digits_val(rest) as i32)
        } else {
            None
        }
    }
}

pub fn parse_i32(v: &Vec<char>) -> (r: Option<i32>)
    ensures
        r == spec_parse_i32(v@),
{
    if v.len() == 0 {
        return None;
    }
    let c0 = v[0];
    let neg = c0 == '-';
    let signed = c0 == '-' || c0 == '+';
    let rest = if signed {
        crate::text::subvec(v, 1, v.len())
    } else {
        crate::text::subvec(v, 0, v.len())
    };
    proof {
        if signed {
            assert(rest@ =~= v@.drop_first());
        } else {
            assert(rest@ =~= v@);
        }
        if all_digits(rest@) {
            lemma_digits_val_nonneg(rest@);
        }
    }
    if neg {
        match parse_bounded_nat(&rest, 2147483648) {
            Some(m) => {
                if m == 2147483648 {
                    Some(i32::MIN)
                } else {
                    Some(-(m as i32))
                }
            },
            None => None,
        }
    } else {
        match parse_bounded_nat(&rest, 2147483647) {
            Some(m) => Some(m as i32),
            None => None,
        }
    }
}

// ===== fractions in millionths =====

/// A signed fixed-point number in millionths of a unit.
#[derive(Clone, Copy, Debug, PartialEq, Eq, Structural)]
pub struct Fraction {
    pub micros: i64,
}

pub open spec fn fraction_wf(f: Fraction) -> bool {
    -999_999_999 <= f.micros <= 999_999_999
}

pub open spec fn pow10(k: nat) -> int
    decreases k,
{
    if k == 0 {
        1
    } else {
        10 * pow10((k - 1) as nat)
    }
}

/// Millionths contributed by the fractional digits: the first six digits,
/// scaled so that one digit is a tenth, two are a hundredth, and so on.
pub open spec fn frac_micros(fs: Seq<char>) -> int {
    if fs.len() >= 6 {
        digits_val(fs.subrange(0, 6))
    } else {
        digits_val(fs) * pow10((6 - fs.len()) as nat)
    }
}

/// The fraction denoted by `s`: an optional sign, then decimal digits with
/// at most one point, at least one digit in all, the integer part at most
/// 999 and fractional digits beyond the sixth ignored.
pub open spec fn spec_parse_fraction(s: Seq<char>) -> Option<Fraction> {
    if s.len() == 0 {
        None
    } else {
        let neg = s[0] == '-';
        let signed = s[0] == '-' || s[0] == '+';
        let rest = if signed {
            s.drop_first()
        } else {
            s
        };
        let dot = crate::text::first_index_of(rest, '.');
        let ip = rest.subrange(0, dot);
        let fp = if dot < rest.len() {
            rest.subrange(dot + 1, rest.len() as int)
        } else {
            Seq::<char>::empty()
        };
        if ip.len() + fp.len() == 0 || !all_digits(ip) || !all_digits(fp) || digits_val(ip) > 999 {
            None
        } else {
            let m = digits_val(ip) * 1_000_000 + frac_micros(fp);
            Some(
                Fraction {
                    micros: if neg {
                        (-m) as i64
                    } else {
                        m as i64
                    },
                },
            )
        }
    }
}

proof fn lemma_digits_val_bound(s: Seq<char>, k: nat)
    requires
        all_digits(s),
        s.len() <= k,
    ensures
        digits_val(s) < pow10(k),
    decreases s.len(),
{
    if s.len() == 0 {
        lemma_pow10_pos(k);
    } else {
        assert(all_digits(s.drop_last()));
        lemma_digits_val_bound(s.drop_last(), (k - 1) as nat);
        assert(pow10(k) == 10 * pow10((k - 1) as nat));
    }
}

proof fn lemma_pow10_small()
    ensures
        pow10(5) == 100_000,
        pow10(6) == 1_000_000,
{
    reveal_with_fuel(pow10, 8);
}

proof fn lemma_pow10_pos(k: nat)
    ensures
        pow10(k) >= 1,
    decreases k,
{
    if k > 0 {
        lemma_pow10_pos((k - 1) as nat);
    }
}

/// Fractional magnitudes stay under one whole unit.
pub proof fn lemma_frac_micros_range(fs: Seq<char>)
    requires
        all_digits(fs),
    ensures
        0 <= frac_micros(fs) < 1_000_000,
{
    if fs.len() >= 6 {
        assert(all_digits(fs.subrange(0, 6)));
        lemma_digits_val_bound(fs.subrange(0, 6), 6);
        lemma_digits_val_nonneg(fs.subrange(0, 6));
        assert(pow10(6) == 1_000_000) by { lemma_pow10_small(); }
    } else {
        lemma_digits_val_bound(fs, fs.len());
        lemma_digits_val_nonneg(fs);
        let scale = (6 - fs.len()) as nat;
        lemma_pow10_pos(scale);
        assert(pow10(fs.len()) * pow10(scale) == pow10(6)) by {
            lemma_pow10_mul(fs.len(), scale);
        }
        assert(pow10(6) == 1_000_000) by { lemma_pow10_small(); }
        assert(digits_val(fs) * pow10(scale) <= (pow10(fs.len()) - 1) * pow10(scale))
            by (nonlinear_arith)
            requires
                digits_val(fs) <= pow10(fs.len()) - 1,
                pow10(scale) >= 1,
        ;
        assert((pow10(fs.len()) - 1) * pow10(scale) == pow10(fs.len()) * pow10(scale) - pow10(
            scale,
        )) by (nonlinear_arith);
        assert(digits_val(fs) * pow10(scale) >= 0) by (nonlinear_arith)
            requires
                digits_val(fs) >= 0,
                pow10(scale) >= 1,
        ;
    }
}

proof fn lemma_pow10_mul(a: nat, b: nat)
    ensures
        pow10(a) * pow10(b) == pow10(a + b),
    decreases a,
{
    if a == 0 {
        assert(pow10(0) == 1);
    } else {
        lemma_pow10_mul((a - 1) as nat, b);
        assert(pow10(a) == 10 * pow10((a - 1) as nat));
        assert((10 * pow10((a - 1) as nat)) * pow10(b) == 10 * (pow10((a - 1) as nat) * pow10(b)))
            by (nonlinear_arith);
    }
}

/// Parsed fractions are well formed.
pub proof fn lemma_parse_fraction_wf(s: Seq<char>)
    ensures
        spec_parse_fraction(s) matches Some(f) ==> fraction_wf(f),
{
    if s.len() > 0 {
        let signed = s[0] == '-' || s[0] == '+';
        let rest = if signed {
            s.drop_first()
        } else {
            s
        };
        let dot = crate::text::first_index_of(rest, '.');
        crate::text::lemma_first_index_of(rest, '.');
        let ip = rest.subrange(0, dot);
        let fp = if dot < rest.len() {
            rest.subrange(dot + 1, rest.len() as int)
        } else {
            Seq::<char>::empty()
        };
        if ip.len() + fp.len() > 0 && all_digits(ip) && all_digits(fp) && digits_val(ip) <= 999 {
            lemma_digits_val_nonneg(ip);
            lemma_frac_micros_range(fp);
        }
    }
}

#[verifier::rlimit(100)]
#[verifier::loop_isolation(false)]
pub fn parse_fraction(v: &Vec<char>) -> (r: Option<Fraction>)
    ensures
        r == spec_parse_fraction(v@),
        r matches Some(f) ==> fraction_wf(f),
{
    proof {
        lemma_parse_fraction_wf(v@);
    }
    if v.len() == 0 {
        return None;
    }
    let c0 = v[0];
    let neg = c0 == '-';
    let signed = c0 == '-' || c0 == '+';
    let rest = if signed {
        crate::text::subvec(v, 1, v.len())
    } else {
        crate::text::subvec(v, 0, v.len())
    };
    proof {
        if signed {
            assert(rest@ =~= v@.drop_first());
        } else {
            assert(rest@ =~= v@);
        }
    }
    let (ip, fp) = match crate::text::find_char(&rest, '.') {
        Some(d) => (crate::text::subvec(&rest, 0, d), crate::text::subvec(&rest, d + 1, rest.len())),
        None => (crate::text::subvec(&rest, 0, rest.len()), Vec::<char>::new()),
    };
    proof {
        crate::text::lemma_first_index_of(rest@, '.');
        let dot = crate::text::first_index_of(rest@, '.');
        if dot == rest@.len() {
            assert(ip@ =~= rest@.subrange(0, dot));
            assert(fp@ =~= Seq::<char>::empty());
        }
    }
    if ip.len() == 0 && fp.len() == 0 {
        return None;
    }
    let int_part = match parse_bounded_nat(&ip, 999) {
        Some(n) => n,
        None => {
            if ip.len() == 0 {
                0
            } else {
                // either a non-digit or a value past the supported magnitude
                proof {
                    if all_digits(ip@) {
                        lemma_digits_val_nonneg(ip@);
                    }
                }
                return None;
            }
        },
    };
    // fractional digits: the first six carry value, the rest only need to be digits
    let mut frac: u64 = 0;
    let mut i: usize = 0;
    let take = if fp.len() < 6 {
        fp.len()
    } else {
        6
    };
    while i < take
        invariant
            take == if fp@.len() < 6 {
                fp@.len() as int
            } else {
                6
            },
            i <= take,
            take <= fp@.len(),
            all_digits(fp@.subrange(0, i as int)),
            frac == digits_val(fp@.subrange(0, i as int)),
            frac <= 999_999,
        decreases take - i,
    {
        let c = fp[i];
        let cu = c as u32;
        if cu < 48 || cu > 57 {
            proof {
                assert(!is_digit(fp@[i as int]));
                assert(!all_digits(fp@));
            }
            return None;
        }
        proof {
            let p = fp@.subrange(0, i as int);
            let q = fp@.subrange(0, i + 1);
            assert(q.drop_last() =~= p);
            assert(q[q.len() - 1] == fp@[i as int]);
            lemma_digits_val_nonneg(p);
            lemma_digits_val_bound(p, i as nat);
            assert(pow10(i as nat) <= pow10(5)) by {
                lemma_pow10_mono(i as nat, 5);
            }
            assert(pow10(5) == 100_000) by { lemma_pow10_small(); }
        }
        frac = frac * 10 + (cu - 48) as u64;
        i += 1;
    }
    // remaining digits past the sixth are checked, then ignored
    let mut j: usize = take;
    while j < fp.len()
        invariant
            take <= j <= fp@.len(),
            all_digits(fp@.subrange(0, take as int)),
            forall|k: int| take <= k < j ==> is_digit(#[trigger] fp@[k]),
        decreases fp@.len() - j,
    {
        let c = fp[j];
        let cu = c as u32;
        if cu < 48 || cu > 57 {
            proof {
                assert(!is_digit(fp@[j as int]));
                assert(!all_digits(fp@));
            }
            return None;
        }
        j += 1;
    }
    proof {
        let p = fp@.subrange(0, take as int);
        assert(all_digits(p));
        assert forall|k: int| 0 <= k < fp@.len() implies is_digit(#[trigger] fp@[k]) by {
            if k < take {
                assert(is_digit(p[k]));
            }
        };
        assert(all_digits(fp@));
        assert(frac * pow10(0) == frac);
    }
    // scale the digits that were read up to millionths
    let mut scale_i: usize = take;
    while scale_i < 6
        invariant
            take <= scale_i <= 6,
            take <= fp@.len(),
            all_digits(fp@.subrange(0, take as int)),
            frac == digits_val(fp@.subrange(0, take as int)) * pow10((scale_i - take) as nat),
            frac <= 999_999,
        decreases 6 - scale_i,
    {
        proof {
            let p = fp@.subrange(0, take as int);
            lemma_digits_val_nonneg(p);
            lemma_digits_val_bound(p, take as nat);
            assert(digits_val(p) * pow10((scale_i + 1 - take) as nat) == (digits_val(p) * pow10(
                (scale_i - take) as nat,
            )) * 10) by (nonlinear_arith)
                requires
                    pow10((scale_i + 1 - take) as nat) == 10 * pow10((scale_i - take) as nat),
            ;
            lemma_frac_scaled_bound(p, (scale_i + 1 - take) as nat);
        }
        frac = frac * 10;
        scale_i += 1;
    }
    proof {
        if fp@.len() >= 6 {
            assert(take == 6);
            assert(pow10(0) == 1);
            assert(frac == frac_micros(fp@));
        } else {
            assert(fp@.subrange(0, take as int) =~= fp@);
            assert(frac == frac_micros(fp@));
        }
    }
    proof {
        if ip@.len() > 0 {
            assert(all_digits(ip@));
            lemma_digits_val_nonneg(ip@);
        }
        assert(int_part as int == digits_val(ip@));
        assert(frac as int == frac_micros(fp@));
        assert(0 <= digits_val(ip@) <= 999);
        assert(0 <= frac_micros(fp@) < 1_000_000);
    }
    let m: i64 = (int_part as i64) * 1_000_000 + (frac as i64);
    proof {
        assert(m == digits_val(ip@) * 1_000_000 + frac_micros(fp@));
        assert(0 <= m <= 999_999_999);
    }
    if neg {
        Some(Fraction { micros: -m })
    } else {
        Some(Fraction { micros: m })
    }
}

proof fn lemma_pow10_mono(a: nat, b: nat)
    requires
        a <= b,
    ensures
        pow10(a) <= pow10(b),
    decreases b,
{
    if a < b {
        lemma_pow10_mono(a, (b - 1) as nat);
        lemma_pow10_pos((b - 1) as nat);
    }
}

proof fn lemma_frac_scaled_bound(p: Seq<char>, k: nat)
    requires
        all_digits(p),
        p.len() + k <= 6,
    ensures
        digits_val(p) * pow10(k) <= 999_999,
{
    lemma_digits_val_nonneg(p);
    lemma_digits_val_bound(p, p.len());
    lemma_pow10_pos(k);
    lemma_pow10_mul(p.len(), k);
    lemma_pow10_mono(p.len() + k, 6);
    assert(pow10(6) == 1_000_000) by { lemma_pow10_small(); }
    assert(digits_val(p) * pow10(k) <= (pow10(p.len()) - 1) * pow10(k)) by (nonlinear_arith)
        requires
            digits_val(p) <= pow10(p.len()) - 1,
            pow10(k) >= 1,
    ;
    assert((pow10(p.len()) - 1) * pow10(k) == pow10(p.len()) * pow10(k) - pow10(k))
        by (nonlinear_arith);
}

// ===== rendering =====

/// Decimal text of a non-negative number, most significant digit first.
pub open spec fn dec_digits(n: int) -> Seq<char>
    decreases n,
{
    if n < 10 {
        seq![digit_char(n)]
    } else {
        dec_digits(n / 10).push(digit_char(n % 10))
    }
}

/// Appends the decimal text of `n`.
pub fn push_dec(s: &mut String, n: u32)
    ensures
        final(s)@ == old(s)@ + dec_digits(n as int),
    decreases n,
{
    if n < 10 {
        crate::text::push_char(s, (48 + n as u8) as char);
        proof {
            assert(old(s)@.push(digit_char(n as int)) =~= old(s)@ + dec_digits(n as int));
        }
    } else {
        push_dec(s, n / 10);
        crate::text::push_char(s, (48 + (n % 10) as u8) as char);
        proof {
            assert((old(s)@ + dec_digits(n as int / 10)).push(digit_char(n as int % 10)) =~= old(
                s,
            )@ + dec_digits(n as int));
        }
    }
}

/// Decimal text is all digits and carries its own value back.
pub proof fn lemma_dec_digits_val(n: int)
    requires
        n >= 0,
    ensures
        all_digits(dec_digits(n)),
        digits_val(dec_digits(n)) == n,
        dec_digits(n).len() >= 1,
    decreases n,
{
    if n < 10 {
        let s = seq![digit_char(n)];
        assert(s.drop_last() =~= Seq::<char>::empty());
        assert(digits_val(s.drop_last()) == 0);
        assert(digit_char(n) as u32 == 48 + n);
        assert(is_digit(digit_char(n)));
        assert(digit_val(digit_char(n)) == n);
        assert(digits_val(s) == 0 * 10 + digit_val(s[0]));
    } else {
        lemma_dec_digits_val(n / 10);
        let p = dec_digits(n / 10);
        let s = p.push(digit_char(n % 10));
        assert(s.drop_last() =~= p);
        assert(s[s.len() - 1] == digit_char(n % 10));
        assert(is_digit(digit_char(n % 10)));
        assert(digit_val(digit_char(n % 10)) == n % 10);
        assert(digits_val(s) == (n / 10) * 10 + n % 10);
        assert((n / 10) * 10 + n % 10 == n) by (nonlinear_arith)
            requires
                n >= 0,
        ;
        assert(forall|j: int| 0 <= j < s.len() ==> is_digit(#[trigger] s[j]));
    }
}

/// Rendering a number and parsing it back returns the same number: decimal
/// text is the exact inverse of the bounded parser for every in-range value.
pub proof fn lemma_dec_round_trip(n: u32, max: int)
    requires
        n as int <= max,
    ensures
        spec_parse_bounded_nat(dec_digits(n as int), max) == Some(n),
{
    lemma_dec_digits_val(n as int);
}

/// Two upper-case hexadecimal digits of a byte.
pub open spec fn hex_byte(b: int) -> Seq<char> {
    seq![hex_char(b / 16), hex_char(b % 16)]
}

fn hex_char_of(d: u8) -> (c: char)
    requires
        d < 16,
    ensures
        c == hex_char(d as int),
{
    if d < 10 {
        (48 + d) as char
    } else {
        (55 + d) as char
    }
}

/// Appends the two hexadecimal digits of `b`, upper case.
pub fn push_hex_byte(s: &mut String, b: u8)
    ensures
        final(s)@ == old(s)@ + hex_byte(b as int),
{
    crate::text::push_char(s, hex_char_of(b / 16));
    crate::text::push_char(s, hex_char_of(b % 16));
    proof {
        assert(old(s)@.push(hex_char(b as int / 16)).push(hex_char(b as int % 16)) =~= old(s)@
            + hex_byte(b as int));
    }
}

/// Exactly `k` decimal digits of `m`, leading zeros kept.
pub open spec fn pad_digits(m: int, k: nat) -> Seq<char>
    decreases k,
{
    if k == 0 {
        Seq::empty()
    } else {
        pad_digits(m / 10, (k - 1) as nat).push(digit_char(m % 10))
    }
}

/// The sequence with its trailing zero digits removed.
pub open spec fn strip_zeros(s: Seq<char>) -> Seq<char>
    decreases s.len(),
{
    if s.len() > 0 && s[s.len() - 1] == '0' {
        strip_zeros(s.drop_last())
    } else {
        s
    }
}

/// The canonical text of a fraction: sign, whole part, and — when the
/// fractional part is not zero — a point and the fractional digits with
/// trailing zeros removed.
pub open spec fn spec_fraction_text(f: Fraction) -> Seq<char> {
    let mag = if f.micros < 0 {
        -(f.micros as int)
    } else {
        f.micros as int
    };
    let whole = mag / 1_000_000;
    let part = mag % 1_000_000;
    let base = if part == 0 {
        dec_digits(whole)
    } else {
        dec_digits(whole) + seq!['.'] + strip_zeros(pad_digits(part, 6))
    };
    if f.micros < 0 {
        seq!['-'] + base
    } else {
        base
    }
}

fn pad_digits_vec(m: u32, k: u8) -> (v: Vec<char>)
    ensures
        v@ == pad_digits(m as int, k as nat),
    decreases k,
{
    if k == 0 {
        proof {
            assert(Seq::<char>::empty() =~= pad_digits(m as int, 0));
        }
        Vec::new()
    } else {
        let mut v = pad_digits_vec(m / 10, k - 1);
        v.push((48 + (m % 10) as u8) as char);
        v
    }
}

/// The canonical text of a fraction, parsable back to the same value.
#[verifier::loop_isolation(false)]
pub fn render_fraction(f: &Fraction) -> (r: String)
    requires
        fraction_wf(*f),
    ensures
        r@ == spec_fraction_text(*f),
{
    let neg = f.micros < 0;
    let mag: i64 = if neg {
        -f.micros
    } else {
        f.micros
    };
    let whole = (mag / 1_000_000) as u32;
    let part = (mag % 1_000_000) as u32;
    let mut s = String::new();
    if neg {
        crate::text::push_char(&mut s, '-');
    }
    push_dec(&mut s, whole);
    if part != 0 {
        crate::text::push_char(&mut s, '.');
        let mut digits = pad_digits_vec(part, 6);
        while digits.len() > 0 && digits[digits.len() - 1] == '0'
            invariant
                strip_zeros(digits@) == strip_zeros(pad_digits(part as int, 6)),
            decreases digits@.len(),
        {
            let ghost before = digits@;
            digits.pop();
            proof {
                assert(digits@ =~= before.drop_last());
            }
        }
        proof {
            assert(strip_zeros(digits@) == digits@);
            assert(s@ =~= (if neg {
                seq!['-']
            } else {
                Seq::<char>::empty()
            }) + dec_digits(whole as int) + seq!['.'] + digits@.subrange(0, 0));
        }
        let mut i: usize = 0;
        while i < digits.len()
            invariant
                i <= digits@.len(),
                s@ == (if neg {
                    seq!['-']
                } else {
                    Seq::<char>::empty()
                }) + dec_digits(whole as int) + seq!['.'] + digits@.subrange(0, i as int),
            decreases digits@.len() - i,
        {
            crate::text::push_char(&mut s, digits[i]);
            i += 1;
            proof {
                assert(s@ =~= (if neg {
                    seq!['-']
                } else {
                    Seq::<char>::empty()
                }) + dec_digits(whole as int) + seq!['.'] + digits@.subrange(0, i as int));
            }
        }
        proof {
            assert(digits@.subrange(0, digits@.len() as int) =~= digits@);
            assert(s@ =~= spec_fraction_text(*f));
        }
        s
    } else {
        proof {
            assert(s@ =~= spec_fraction_text(*f));
        }
        s
    }
}

// ===== fraction text round trip =====

proof fn lemma_pad_digits_val(m: int, k: nat)
    requires
        0 <= m < pow10(k),
    ensures
        all_digits(pad_digits(m, k)),
        digits_val(pad_digits(m, k)) == m,
        pad_digits(m, k).len() == k,
    decreases k,
{
    if k == 0 {
        assert(pad_digits(m, 0) =~= Seq::<char>::empty());
    } else {
        assert(pow10(k) == 10 * pow10((k - 1) as nat));
        assert(0 <= m / 10 < pow10((k - 1) as nat)) by (nonlinear_arith)
            requires
                0 <= m < 10 * pow10((k - 1) as nat),
        ;
        lemma_pad_digits_val(m / 10, (k - 1) as nat);
        let p = pad_digits(m / 10, (k - 1) as nat);
        let s = p.push(digit_char(m % 10));
        assert(s.drop_last() =~= p);
        assert(s[s.len() - 1] == digit_char(m % 10));
        assert(digit_char(m % 10) as u32 == 48 + m % 10);
        assert(digits_val(s) == (m / 10) * 10 + m % 10);
        assert((m / 10) * 10 + m % 10 == m) by (nonlinear_arith)
            requires
                m >= 0,
        ;
        assert(forall|j: int| 0 <= j < s.len() ==> is_digit(#[trigger] s[j]));
    }
}

proof fn lemma_strip_zeros_val(s: Seq<char>)
    requires
        all_digits(s),
    ensures
        all_digits(strip_zeros(s)),
        strip_zeros(s).len() <= s.len(),
        digits_val(s) == digits_val(strip_zeros(s)) * pow10((s.len() - strip_zeros(s).len()) as nat),
    decreases s.len(),
{
    if s.len() > 0 && s[s.len() - 1] == '0' {
        let p = s.drop_last();
        assert(all_digits(p));
        lemma_strip_zeros_val(p);
        let r = strip_zeros(p);
        let t = (p.len() - r.len()) as nat;
        assert(digits_val(s) == digits_val(p) * 10 + digit_val(s[s.len() - 1]));
        assert(digit_val('0') == 0);
        assert((digits_val(r) * pow10(t)) * 10 == digits_val(r) * pow10(t + 1)) by (nonlinear_arith)
            requires
                pow10(t + 1) == 10 * pow10(t),
        ;
    } else {
        assert(digits_val(s) * pow10(0) == digits_val(s));
    }
}

/// Rendering a fraction and parsing it back returns the same fraction: the
/// canonical text is the exact inverse of parsing for every well-formed
/// value.
pub proof fn lemma_fraction_round_trip(f: Fraction)
    requires
        fraction_wf(f),
    ensures
        spec_parse_fraction(spec_fraction_text(f)) == Some(f),
{
    let text = spec_fraction_text(f);
    let neg = f.micros < 0;
    let mag = if neg {
        -(f.micros as int)
    } else {
        f.micros as int
    };
    let whole = mag / 1_000_000;
    let part = mag % 1_000_000;
    vstd::arithmetic::div_mod::lemma_fundamental_div_mod(mag, 1_000_000);
    vstd::arithmetic::div_mod::lemma_mod_division_less_than_divisor(mag, 1_000_000);
    vstd::arithmetic::div_mod::lemma_div_is_ordered(0, mag, 1_000_000);
    vstd::arithmetic::div_mod::lemma_div_is_ordered(mag, 999_999_999, 1_000_000);
    assert(999_999_999int / 1_000_000 == 999);
    assert(0 <= whole <= 999 && 0 <= part < 1_000_000 && mag == whole * 1_000_000 + part);
    lemma_dec_digits_val(whole);
    let dw = dec_digits(whole);
    assert(forall|j: int| 0 <= j < dw.len() ==> (#[trigger] dw[j]) != '.' && dw[j] != '-' && dw[j]
        != '+') by {
        assert(forall|j: int| 0 <= j < dw.len() ==> is_digit(#[trigger] dw[j]));
    }
    if part == 0 {
        let base = dw;
        assert(text == if neg {
            seq!['-'] + base
        } else {
            base
        });
        let rest = if neg {
            text.drop_first()
        } else {
            text
        };
        if neg {
            assert(text[0] == '-');
            assert(rest =~= base);
        } else {
            assert(text[0] == dw[0]);
        }
        crate::text::lemma_first_index_of(rest, '.');
        let dot = crate::text::first_index_of(rest, '.');
        if dot < rest.len() {
            assert(rest[dot] == '.');
            assert(is_digit(rest[dot]));
            assert(false);
        }
        let ip = rest.subrange(0, dot);
        assert(ip =~= dw);
        assert(frac_micros(Seq::<char>::empty()) == 0);
    } else {
        let fd = strip_zeros(pad_digits(part, 6));
        assert(pow10(6) == 1_000_000) by {
            lemma_pow10_small();
        }
        lemma_pad_digits_val(part, 6);
        lemma_strip_zeros_val(pad_digits(part, 6));
        let t = (6 - fd.len()) as nat;
        assert(part == digits_val(fd) * pow10(t));
        if fd.len() == 0 {
            assert(digits_val(fd) == 0);
            assert(0 * pow10(t) == 0);
            assert(false);
        }
        let base = dw + seq!['.'] + fd;
        assert(text == if neg {
            seq!['-'] + base
        } else {
            base
        });
        let rest = if neg {
            text.drop_first()
        } else {
            text
        };
        if neg {
            assert(text[0] == '-');
            assert(rest =~= base);
        } else {
            assert(text[0] == dw[0]);
        }
        crate::text::lemma_first_index_concat(dw, fd, '.');
        assert(crate::text::first_index_of(base, '.') == dw.len());
        let dot = crate::text::first_index_of(rest, '.');
        assert(dot == dw.len());
        let ip = rest.subrange(0, dot);
        let fp = rest.subrange(dot + 1, rest.len() as int);
        assert(ip =~= dw);
        assert(fp =~= fd);
        if fd.len() >= 6 {
            assert(fd.len() == 6);
            assert(fp.subrange(0, 6) =~= fd);
            assert(pow10(0) == 1);
            assert(digits_val(fd) * 1 == digits_val(fd));
            assert(frac_micros(fp) == part);
        } else {
            assert(frac_micros(fp) == digits_val(fd) * pow10((6 - fd.len()) as nat));
            assert(frac_micros(fp) == part);
        }
    }
}

// ===== booleans =====

pub open spec fn spec_parse_bool(s: Seq<char>) -> Option<bool> {
    if s == "true"@ {
        Some(true)
    } else if s == "false"@ {
        Some(false)
    } else {
        None
    }
}

pub fn parse_bool(v: &Vec<char>) -> (r: Option<bool>)
    ensures
        r == spec_parse_bool(v@),
{
    if crate::text::seq_eq_str(v, "true") {
        Some(true)
    } else if crate::text::seq_eq_str(v, "false") {
        Some(false)
    } else {
        None
    }
}

} // verus!
