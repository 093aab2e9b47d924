//! Fixed-point decimal amounts.
//!
//! Prices, volumes and feed timestamps arrive as decimal text such as `"42000.5"`.
//! The library holds them as whole numbers of units, where one unit is
//! 10^-8 of the amount: `"42000.5"` becomes `4_200_050_000_000`.
use vstd::prelude::*;

verus! {

/// Units in one whole amount.
pub const UNITS_PER_WHOLE: u64 = 100_000_000;

/// Fraction digits that a unit can carry.
pub const FRACTION_DIGITS: usize = 8;

pub open spec fn is_digit(c: char) -> bool {
    '0' <= c && c <= '9'
}

pub open spec fn digit_value(c: char) -> nat {
    (c as int - '0' as int) as nat
}

pub open spec fn all_digits(s: Seq<char>) -> bool {
    forall|i: int| 0 <= i < s.len() ==> is_digit(#[trigger] s[i])
}

pub open spec fn all_zeros(s: Seq<char>) -> bool {
    forall|i: int| 0 <= i < s.len() ==> #[trigger] s[i] == '0'
}

/// The number that a string of decimal digits spells.
pub open spec fn digits_value(s: Seq<char>) -> nat
    decreases s.len(),
{
    if s.len() == 0 {
        0
    } else {
        digits_value(s.drop_last()) * 10 + digit_value(s.last())
    }
}

pub open spec fn pow10(n: nat) -> nat
    decreases n,
{
    if n == 0 {
        1
    } else {
        10 * pow10((n - 1) as nat)
    }
}

/// Position of the decimal point: the first `'.'` of `s`, or `s.len()` where there is none.
pub open spec fn point_index(s: Seq<char>) -> int
    decreases s.len(),
{
    if s.len() == 0 {
        0
    } else if s[0] == '.' {
        0
    } else {
        1 + point_index(s.drop_first())
    }
}

/// The digits before the decimal point.
pub open spec fn whole_part(s: Seq<char>) -> Seq<char> {
    s.take(point_index(s))
}

/// The digits after the decimal point (empty where there is no point).
pub open spec fn fraction_part(s: Seq<char>) -> Seq<char> {
    if point_index(s) < s.len() {
        s.skip(point_index(s) + 1)
    } else {
        Seq::empty()
    }
}

/// The fraction digits that units can hold: the first eight.
pub open spec fn kept_fraction(f: Seq<char>) -> Seq<char> {
    if f.len() <= FRACTION_DIGITS {
        f
    } else {
        f.take(FRACTION_DIGITS as int)
    }
}

/// The fraction, in units.
pub open spec fn fraction_units(f: Seq<char>) -> nat {
    digits_value(kept_fraction(f)) * pow10((FRACTION_DIGITS - kept_fraction(f).len()) as nat)
}

/// Whether `s` is a non-negative decimal number: digits, at most one point, at least one
/// digit, and no non-zero digit past the eighth after the point.
pub open spec fn is_decimal_text(s: Seq<char>) -> bool {
    &&& all_digits(whole_part(s))
    &&& all_digits(fraction_part(s))
    &&& whole_part(s).len() + fraction_part(s).len() > 0
    &&& fraction_part(s).len() > FRACTION_DIGITS ==> all_zeros(
        fraction_part(s).skip(FRACTION_DIGITS as int),
    )
}

/// The amount that decimal text denotes, in units.
pub open spec fn text_units(s: Seq<char>) -> nat {
    (digits_value(whole_part(s)) * UNITS_PER_WHOLE + fraction_units(fraction_part(s))) as nat
}

/// What `parse_units` returns: the amount in units where `s` is decimal text whose amount
/// fits in a `u64`, else nothing.
pub open spec fn decimal_units(s: Seq<char>) -> Option<u64> {
    if is_decimal_text(s) && text_units(s) <= u64::MAX {
        Some(text_units(s) as u64)
    } else {
        None
    }
}

proof fn lemma_point_index(s: Seq<char>, i: int)
    requires
        0 <= i <= s.len(),
        forall|j: int| 0 <= j < i ==> s[j] != '.',
        i == s.len() || s[i] == '.',
    ensures
        point_index(s) == i,
    decreases i,
{
    if i > 0 {
        lemma_point_index(s.drop_first(), i - 1);
    }
}

/// A prefix of a digit string spells no more than the whole string.
pub proof fn lemma_digits_value_prefix(s: Seq<char>, k: int)
    requires
        0 <= k <= s.len(),
    ensures
        digits_value(s.take(k)) <= digits_value(s),
    decreases s.len(),
{
    if k < s.len() {
        assert(s.drop_last().take(k) =~= s.take(k));
        lemma_digits_value_prefix(s.drop_last(), k);
    } else {
        assert(s.take(k) =~= s);
    }
}

proof fn lemma_digits_value_bound(s: Seq<char>)
    requires
        all_digits(s),
    ensures
        digits_value(s) < pow10(s.len()),
    decreases s.len(),
{
    if s.len() > 0 {
        lemma_digits_value_bound(s.drop_last());
        assert(is_digit(s[s.len() - 1]));
    }
}

proof fn lemma_digits_value_push(s: Seq<char>, k: int)
    requires
        0 <= k < s.len(),
    ensures
        digits_value(s.take(k + 1)) == digits_value(s.take(k)) * 10 + digit_value(s[k]),
{
    assert(s.take(k + 1).drop_last() =~= s.take(k));
}

proof fn lemma_pow10_mono(a: nat, b: nat)
    requires
        a <= b,
    ensures
        pow10(a) <= pow10(b),
    decreases b,
{
    if a < b {
        lemma_pow10_mono(a, (b - 1) as nat);
    }
}

proof fn lemma_pow10_units()
    ensures
        pow10(FRACTION_DIGITS as nat) == UNITS_PER_WHOLE,
{
    reveal_with_fuel(pow10, 9);
}

proof fn lemma_point_index_props(s: Seq<char>)
    ensures
        0 <= point_index(s) <= s.len(),
        forall|j: int| 0 <= j < point_index(s) ==> s[j] != '.',
        point_index(s) < s.len() ==> s[point_index(s)] == '.',
    decreases s.len(),
{
    if s.len() > 0 && s[0] != '.' {
        lemma_point_index_props(s.drop_first());
        assert forall|j: int| 0 <= j < point_index(s) implies s[j] != '.' by {
            if j > 0 {
                assert(s[j] == s.drop_first()[j - 1]);
            }
        }
    }
}

/// A character that is neither a digit nor the point makes the text no decimal.
proof fn lemma_not_decimal_at(s: Seq<char>, k: int)
    requires
        0 <= k < s.len(),
        !is_digit(s[k]),
        s[k] != '.',
    ensures
        decimal_units(s) is None,
{
    lemma_point_index_props(s);
    let p = point_index(s);
    if k < p {
        assert(whole_part(s)[k] == s[k]);
    } else {
        assert(k > p);
        assert(fraction_part(s)[k - p - 1] == s[k]);
    }
}

/// Whole digits before the point that already spell more than a `u64` holds.
proof fn lemma_whole_overflow(s: Seq<char>, m: int)
    requires
        0 <= m <= s.len(),
        forall|j: int| 0 <= j < m ==> s[j] != '.',
        digits_value(s.take(m)) > u64::MAX,
    ensures
        decimal_units(s) is None,
{
    lemma_point_index_props(s);
    let p = point_index(s);
    if m > p {
        assert(s[p] != '.');
    }
    assert(whole_part(s).take(m) =~= s.take(m));
    lemma_digits_value_prefix(whole_part(s), m);
    assert(digits_value(whole_part(s)) * UNITS_PER_WHOLE >= digits_value(whole_part(s)));
}

proof fn lemma_not_fraction_digit(s: Seq<char>, c: int)
    requires
        0 <= c < fraction_part(s).len(),
        !is_digit(fraction_part(s)[c]),
    ensures
        decimal_units(s) is None,
{
}

proof fn lemma_fraction_nonzero_tail(s: Seq<char>, c: int)
    requires
        FRACTION_DIGITS <= c < fraction_part(s).len(),
        fraction_part(s)[c] != '0',
    ensures
        decimal_units(s) is None,
{
    assert(fraction_part(s).skip(FRACTION_DIGITS as int)[c - FRACTION_DIGITS] == fraction_part(
        s,
    )[c]);
}

/// ASCII code of `'0'`.
const ZERO_BYTE: u8 = 48;

/// ASCII code of `'9'`.
const NINE_BYTE: u8 = 57;

/// ASCII code of `'.'`.
const POINT_BYTE: u8 = 46;

fn ascii_digit(b: u8) -> (r: Option<u64>)
    ensures
        r is Some <==> (ZERO_BYTE <= b <= NINE_BYTE),
        r is Some ==> r->0 == b - ZERO_BYTE,
{
    if ZERO_BYTE <= b && b <= NINE_BYTE {
        Some((b - ZERO_BYTE) as u64)
    } else {
        None
    }
}

/// Reads decimal text as a number of units (10^-8). `None` where the text is not a
/// non-negative decimal number, or where its amount does not fit in a `u64`.
pub fn parse_units(s: &str) -> (r: Option<u64>)
    ensures
        r == decimal_units(s@),
{
    if !s.is_ascii() {
        proof {
            let k = choose|k: int| 0 <= k < s@.len() && !('\0' <= #[trigger] s@[k] <= '\u{7f}');
            lemma_not_decimal_at(s@, k);
        }
        return None;
    }
    let bytes = s.as_bytes();
    let n = bytes.len();
    let ghost t = s@;
    proof {
        vstd::string::is_ascii_spec_bytes(s);
        assert forall|k: int| 0 <= k < t.len() implies (#[trigger] t[k]) as int == bytes@[k] as int by {
            assert(bytes@[k] == t[k] as u8);
        }
    }
    let mut whole: u64 = 0;
    let mut i: usize = 0;
    while i < n && bytes[i] != POINT_BYTE
        invariant
            t == s@,
            n == t.len(),
            bytes@.len() == n,
            0 <= i <= n,
            forall|k: int| 0 <= k < n ==> (#[trigger] t[k]) as int == bytes@[k] as int,
            forall|j: int| 0 <= j < i ==> t[j] != '.',
            all_digits(t.take(i as int)),
            whole == digits_value(t.take(i as int)),
        decreases n - i,
    {
        let b = bytes[i];
        proof {
            assert(t[i as int] as int == b as int);
        }
        let d = match ascii_digit(b) {
            Some(d) => d,
            None => {
                proof {
                    lemma_not_decimal_at(t, i as int);
                }
                return None;
            },
        };
        proof {
            lemma_digits_value_push(t, i as int);
            assert(digit_value(t[i as int]) == d);
        }
        let next = match whole.checked_mul(10) {
            Some(w) => w.checked_add(d),
            None => None,
        };
        match next {
            Some(w) => {
                whole = w;
            },
            None => {
                proof {
                    assert(digits_value(t.take(i + 1)) > u64::MAX);
                    lemma_whole_overflow(t, (i + 1) as int);
                }
                return None;
            },
        }
        proof {
            assert(all_digits(t.take(i + 1))) by {
                assert forall|j: int| 0 <= j < i + 1 implies is_digit(#[trigger] t.take(i + 1)[j]) by {
                    if j < i {
                        assert(t.take(i + 1)[j] == t.take(i as int)[j]);
                    }
                }
            }
        }
        i = i + 1;
    }
    let ghost p = i as int;
    proof {
        if i < n {
            assert(t[p] as int == bytes@[p] as int);
        }
        lemma_point_index(t, p);
        assert(whole_part(t) =~= t.take(p));
    }
    if i == 0 && n <= 1 {
        return None;
    }
    let start: usize = if i < n {
        i + 1
    } else {
        n
    };
    let flen: usize = n - start;
    let ghost f = fraction_part(t);
    proof {
        assert(f.len() == flen);
        assert forall|k: int| 0 <= k < flen implies #[trigger] f[k] == t[start + k] by {}
        assert(f.take(0) =~= Seq::<char>::empty());
    }
    let mut frac: u64 = 0;
    let mut kept: usize = 0;
    let mut c: usize = 0;
    while c < flen
        invariant
            t == s@,
            n == t.len(),
            bytes@.len() == n,
            start + flen == n,
            forall|k: int| 0 <= k < n ==> (#[trigger] t[k]) as int == bytes@[k] as int,
            f == fraction_part(t),
            f.len() == flen,
            forall|k: int| 0 <= k < flen ==> #[trigger] f[k] == t[start + k],
            all_digits(whole_part(t)),
            whole == digits_value(whole_part(t)),
            whole_part(t).len() + f.len() > 0,
            c <= flen,
            all_digits(f.take(c as int)),
            kept as int == if c <= FRACTION_DIGITS {
                c as int
            } else {
                FRACTION_DIGITS as int
            },
            frac == digits_value(f.take(kept as int)),
            frac < pow10(kept as nat),
            c > FRACTION_DIGITS ==> all_zeros(f.take(c as int).skip(FRACTION_DIGITS as int)),
        decreases flen - c,
    {
        let b = bytes[start + c];
        proof {
            assert(f[c as int] == t[start + c]);
            assert(t[start + c] as int == b as int);
        }
        let d = match ascii_digit(b) {
            Some(d) => d,
            None => {
                proof {
                    lemma_not_fraction_digit(t, c as int);
                }
                return None;
            },
        };
        if kept < FRACTION_DIGITS {
            proof {
                lemma_digits_value_push(f, c as int);
                assert(f.take(kept as int) =~= f.take(c as int));
                lemma_pow10_mono((kept + 1) as nat, FRACTION_DIGITS as nat);
                lemma_pow10_units();
                assert(pow10((kept + 1) as nat) == 10 * pow10(kept as nat));
            }
            frac = frac * 10 + d;
            kept = kept + 1;
        } else if d != 0 {
            proof {
                lemma_fraction_nonzero_tail(t, c as int);
            }
            return None;
        }
        proof {
            let c1 = c + 1;
            assert(all_digits(f.take(c1))) by {
                assert forall|k: int| 0 <= k < c1 implies is_digit(#[trigger] f.take(c1)[k]) by {
                    if k < c {
                        assert(f.take(c1)[k] == f.take(c as int)[k]);
                    }
                }
            }
            if c1 <= FRACTION_DIGITS {
                assert(f.take(kept as int) =~= f.take(c1));
            }
            if c1 > FRACTION_DIGITS {
                assert(all_zeros(f.take(c1).skip(FRACTION_DIGITS as int))) by {
                    assert forall|k: int|
                        0 <= k < f.take(c1).skip(
                            FRACTION_DIGITS as int,
                        ).len() implies #[trigger] f.take(c1).skip(FRACTION_DIGITS as int)[k]
                        == '0' by {
                        if k < c - FRACTION_DIGITS {
                            assert(f.take(c1).skip(FRACTION_DIGITS as int)[k] == f.take(
                                c as int,
                            ).skip(FRACTION_DIGITS as int)[k]);
                        }
                    }
                }
            }
        }
        c = c + 1;
    }
    let ghost kf = kept_fraction(f);
    let ghost kl = kept as int;
    proof {
        assert(f.take(c as int) =~= f);
        assert(kf =~= f.take(kept as int));
        if c > FRACTION_DIGITS {
            assert(f.take(c as int).skip(FRACTION_DIGITS as int) =~= f.skip(FRACTION_DIGITS as int));
        }
        assert(is_decimal_text(t));
        assert(pow10(0) == 1);
        assert(frac == digits_value(kf) * pow10(0));
    }
    while kept < FRACTION_DIGITS
        invariant
            t == s@,
            f == fraction_part(t),
            kf == kept_fraction(f),
            is_decimal_text(t),
            whole == digits_value(whole_part(t)),
            kl <= kept <= FRACTION_DIGITS,
            kf.len() == kl,
            frac == digits_value(kf) * pow10((kept - kl) as nat),
            frac < pow10(kept as nat),
        decreases FRACTION_DIGITS - kept,
    {
        proof {
            lemma_pow10_mono((kept + 1) as nat, FRACTION_DIGITS as nat);
            lemma_pow10_units();
            let e = (kept - kl) as nat;
            assert(pow10((kept + 1) as nat) == 10 * pow10(kept as nat));
            assert(pow10(e + 1) == 10 * pow10(e));
            assert(frac * 10 == digits_value(kf) * pow10(e + 1)) by (nonlinear_arith)
                requires
                    frac == digits_value(kf) * pow10(e),
                    pow10(e + 1) == 10 * pow10(e),
            ;
            assert((kept + 1 - kl) as nat == e + 1);
        }
        frac = frac * 10;
        kept = kept + 1;
    }
    proof {
        lemma_pow10_units();
        assert(frac == fraction_units(f));
        assert(text_units(t) == whole * UNITS_PER_WHOLE + frac);
    }
    match whole.checked_mul(UNITS_PER_WHOLE) {
        Some(w) => w.checked_add(frac),
        None => None,
    }
}

} // verus!
