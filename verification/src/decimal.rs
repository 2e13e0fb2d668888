use vstd::prelude::*;

verus! {

// Prices and sizes travel on the wire as decimal strings such as "0.00216090".
// The book stores them as integer multiples of 1e-8 (`units`), so that the
// verified logic never touches floating point: "0.0024" becomes 240_000 units.

/// Number of decimal places one unit refines: one unit is 1e-8.
pub const DECIMAL_PLACES: u64 = 8;

/// 10^DECIMAL_PLACES: how many units make one.
pub const UNITS_PER_ONE: u64 = 100_000_000;

pub open spec fn is_digit(b: u8) -> bool {
    48 <= b <= 57
}

pub open spec fn digit_val(b: u8) -> nat {
    if is_digit(b) {
        (b - 48) as nat
    } else {
        0
    }
}

pub open spec fn all_digits(s: Seq<u8>) -> bool {
    forall|i: int| 0 <= i < s.len() ==> is_digit(s[i])
}

/// The number a digit string denotes, most significant digit first.
pub open spec fn digits_val(s: Seq<u8>) -> nat
    decreases s.len(),
{
    if s.len() == 0 {
        0
    } else {
        digits_val(s.drop_last()) * 10 + digit_val(s.last())
    }
}

pub open spec fn pow10(e: nat) -> nat
    decreases e,
{
    if e == 0 {
        1
    } else {
        10 * pow10((e - 1) as nat)
    }
}

/// Position of the first `.` at or after `i`, if any.
pub open spec fn first_dot_from(s: Seq<u8>, i: int) -> Option<int>
    decreases s.len() - i,
{
    if !(0 <= i < s.len()) {
        None
    } else if s[i] == 46 {
        Some(i)
    } else {
        first_dot_from(s, i + 1)
    }
}

/// The accepted number grammar: digits, optionally a dot and further
/// digits. Digits beyond the eighth place after the dot must all be
/// zeros, since a finer value does not land on the 1e-8 grid; exponent
/// notation and signs are not part of the wire format and are rejected.
pub open spec fn spec_is_decimal(s: Seq<u8>) -> bool {
    match first_dot_from(s, 0) {
        None => s.len() > 0 && all_digits(s),
        Some(p) => {
            let ip = s.subrange(0, p);
            let fp = s.subrange(p + 1, s.len() as int);
            &&& ip.len() > 0
            &&& fp.len() > 0
            &&& all_digits(ip)
            &&& all_digits(fp)
            &&& (fp.len() <= DECIMAL_PLACES || (forall|k: int|
                DECIMAL_PLACES <= k < fp.len() ==> fp[k] == 48))
        },
    }
}

/// The value a decimal string denotes, in units of 1e-8; only the first
/// DECIMAL_PLACES fractional digits carry value (the rest are zeros
/// wherever the grammar holds).
pub open spec fn spec_decimal_units(s: Seq<u8>) -> nat {
    match first_dot_from(s, 0) {
        None => digits_val(s) * pow10(DECIMAL_PLACES as nat),
        Some(p) => {
            let ip = s.subrange(0, p);
            let fp = s.subrange(p + 1, s.len() as int);
            let f8 = if fp.len() <= DECIMAL_PLACES {
                fp
            } else {
                fp.subrange(0, DECIMAL_PLACES as int)
            };
            digits_val(ip) * pow10(DECIMAL_PLACES as nat) + digits_val(f8) * pow10(
                (DECIMAL_PLACES - f8.len()) as nat,
            )
        },
    }
}

proof fn lemma_digits_val_prefix(t: Seq<u8>, k: int)
    requires
        0 <= k <= t.len(),
    ensures
        digits_val(t.take(k)) <= digits_val(t),
    decreases t.len(),
{
    if k == t.len() {
        assert(t.take(k) =~= t);
    } else {
        lemma_digits_val_prefix(t.drop_last(), k);
        assert(t.drop_last().take(k) =~= t.take(k));
    }
}

proof fn lemma_digits_val_bound(t: Seq<u8>)
    requires
        all_digits(t),
    ensures
        digits_val(t) < pow10(t.len() as nat),
    decreases t.len(),
{
    if t.len() > 0 {
        assert(all_digits(t.drop_last())) by {
            assert(forall|i: int|
                0 <= i < t.drop_last().len() ==> t.drop_last()[i] == t[i] && is_digit(t[i]));
        }
        lemma_digits_val_bound(t.drop_last());
        assert(digit_val(t.last()) <= 9);
    }
}

proof fn lemma_pow10_adds(a: nat, b: nat)
    ensures
        pow10(a + b) == pow10(a) * pow10(b),
    decreases a,
{
    if a == 0 {
        assert(pow10(0 + b) == 1 * pow10(b));
    } else {
        lemma_pow10_adds((a - 1) as nat, b);
        assert(pow10(a + b) == 10 * pow10((a + b - 1) as nat));
        assert(10 * (pow10((a - 1) as nat) * pow10(b)) == (10 * pow10((a - 1) as nat)) * pow10(
            b,
        )) by (nonlinear_arith);
    }
}

/// Reads the digit run `s[from..to]`: the parsed value, or `None` where a
/// byte is no digit or the value exceeds `u64`.
pub(crate) fn parse_digits(s: &[u8], from: usize, to: usize) -> (r: Option<u64>)
    requires
        from <= to <= s@.len(),
    ensures
        match r {
            Some(v) => all_digits(s@.subrange(from as int, to as int)) && v == digits_val(
                s@.subrange(from as int, to as int),
            ),
            None => !(all_digits(s@.subrange(from as int, to as int)) && digits_val(
                s@.subrange(from as int, to as int),
            ) <= u64::MAX),
        },
{
    let ghost whole = s@.subrange(from as int, to as int);
    let mut acc: u64 = 0;
    let mut i: usize = from;
    while i < to
        invariant
            from <= i <= to <= s@.len(),
            whole == s@.subrange(from as int, to as int),
            all_digits(s@.subrange(from as int, i as int)),
            acc == digits_val(s@.subrange(from as int, i as int)),
        decreases to - i,
    {
        let ghost done = s@.subrange(from as int, i as int);
        let ghost next = s@.subrange(from as int, i + 1 as int);
        proof {
            assert(next.drop_last() =~= done);
            assert(next.last() == s@[i as int]);
        }
        let b = s[i];
        if b < 48 || b > 57 {
            proof {
                assert(whole[i - from] == s@[i as int]);
                assert(!is_digit(whole[i - from]));
            }
            return None;
        }
        let d: u64 = (b - 48) as u64;
        let step = match acc.checked_mul(10) {
            Some(m) => m.checked_add(d),
            None => None,
        };
        match step {
            Some(v) => {
                acc = v;
            },
            None => {
                proof {
                    assert(digits_val(next) > u64::MAX);
                    lemma_digits_val_prefix(whole, i + 1 - from);
                    assert(whole.take(i + 1 - from) =~= next);
                }
                return None;
            },
        }
        i += 1;
        proof {
            assert(s@.subrange(from as int, i as int) == next);
        }
    }
    proof {
        assert(s@.subrange(from as int, i as int) =~= whole);
    }
    Some(acc)
}

/// 10^e for small exponents.
fn pow10_u64(e: u64) -> (r: u64)
    requires
        e <= DECIMAL_PLACES,
    ensures
        r == pow10(e as nat),
{
    proof {
        reveal_with_fuel(pow10, 9);
    }
    if e == 0 {
        1
    } else if e == 1 {
        10
    } else if e == 2 {
        100
    } else if e == 3 {
        1_000
    } else if e == 4 {
        10_000
    } else if e == 5 {
        100_000
    } else if e == 6 {
        1_000_000
    } else if e == 7 {
        10_000_000
    } else {
        100_000_000
    }
}

proof fn lemma_pow10_8()
    ensures
        pow10(8) == 100_000_000,
{
    reveal_with_fuel(pow10, 9);
}

proof fn lemma_pow10_positive(e: nat)
    ensures
        pow10(e) >= 1,
    decreases e,
{
    if e > 0 {
        lemma_pow10_positive((e - 1) as nat);
    }
}

/// Parses a decimal string into units of 1e-8.
///
/// Returns `Some` exactly when the string matches the decimal grammar and
/// its value fits; the result is then the denoted number of units.
pub fn parse_units(s: &[u8]) -> (r: Option<u64>)
    ensures
        match r {
            Some(v) => spec_is_decimal(s@) && v == spec_decimal_units(s@),
            None => !(spec_is_decimal(s@) && spec_decimal_units(s@) <= u64::MAX),
        },
{
    proof {
        lemma_pow10_8();
    }
    let n = s.len();
    // locate the first dot
    let mut i: usize = 0;
    while i < n && s[i] != 46
        invariant
            i <= n == s@.len(),
            first_dot_from(s@, 0) == first_dot_from(s@, i as int),
        decreases n - i,
    {
        proof {
            assert(first_dot_from(s@, i as int) == first_dot_from(s@, i + 1));
        }
        i += 1;
    }
    let dot: Option<usize> = if i < n {
        Some(i)
    } else {
        None
    };
    match dot {
        None => {
            assert(first_dot_from(s@, 0) is None);
            if n == 0 {
                return None;
            }
            match parse_digits(s, 0, n) {
                None => {
                    proof {
                        assert(s@.subrange(0, n as int) =~= s@);
                        if all_digits(s@) && digits_val(s@) * pow10(8) <= u64::MAX {
                            assert(digits_val(s@) * 100_000_000 >= digits_val(s@) * 1)
                                by (nonlinear_arith);
                        }
                    }
                    None
                },
                Some(iv) => {
                    proof {
                        assert(s@.subrange(0, n as int) =~= s@);
                    }
                    iv.checked_mul(UNITS_PER_ONE)
                },
            }
        },
        Some(p) => {
            proof {
                assert(first_dot_from(s@, p as int) == Some(p as int));
                assert(first_dot_from(s@, 0) == Some(p as int));
            }
            let ghost ip = s@.subrange(0, p as int);
            let ghost fp = s@.subrange(p as int + 1, n as int);
            if p == 0 || p + 1 >= n {
                return None;
            }
            // fractional digits beyond the eighth must all be zeros
            let f_end: usize = if n - p - 1 > 8 {
                p + 9
            } else {
                n
            };
            let mut t: usize = f_end;
            while t < n
                invariant
                    f_end <= t <= n == s@.len(),
                    p + 1 < n,
                    p + 1 <= f_end <= n,
                    first_dot_from(s@, 0) == Some(p as int),
                    fp == s@.subrange(p as int + 1, n as int),
                    f_end == if n - p - 1 > 8 {
                        p + 9
                    } else {
                        n as int
                    },
                    forall|k: int| f_end <= k < t ==> s@[k] == 48,
                decreases n - t,
            {
                if s[t] != 48 {
                    proof {
                        assert(fp[t - (p + 1)] == s@[t as int]);
                        assert(fp.len() > 8);
                        assert(!spec_is_decimal(s@)) by {
                            assert(8 <= t - (p + 1) < fp.len());
                            assert(fp[t - (p + 1)] != 48);
                        }
                    }
                    return None;
                }
                t += 1;
            }
            let ghost f8 = s@.subrange(p as int + 1, f_end as int);
            proof {
                if fp.len() <= 8 {
                    assert(f8 =~= fp);
                } else {
                    assert(f8 =~= fp.subrange(0, 8));
                }
            }
            let flen: usize = f_end - p - 1;
            let iv = match parse_digits(s, 0, p) {
                Some(v) => v,
                None => {
                    proof {
                        if all_digits(ip) && spec_decimal_units(s@) <= u64::MAX {
                            assert(digits_val(ip) * 100_000_000 + digits_val(f8) * pow10(
                                (8 - f8.len()) as nat,
                            ) >= digits_val(ip)) by (nonlinear_arith);
                        }
                    }
                    return None;
                },
            };
            let fv = match parse_digits(s, p + 1, f_end) {
                Some(v) => v,
                None => {
                    proof {
                        assert(!all_digits(fp)) by {
                            if all_digits(fp) {
                                assert(all_digits(f8)) by {
                                    assert(forall|k: int|
                                        0 <= k < f8.len() ==> f8[k] == fp[k]);
                                }
                                lemma_digits_val_bound(f8);
                                assert(pow10(f8.len() as nat) <= pow10(8)) by {
                                    lemma_pow10_adds(f8.len() as nat, (8 - f8.len()) as nat);
                                    lemma_pow10_positive((8 - f8.len()) as nat);
                                    assert(pow10(f8.len() as nat) * pow10((8 - f8.len()) as nat)
                                        >= pow10(f8.len() as nat) * 1) by (nonlinear_arith)
                                        requires
                                            pow10((8 - f8.len()) as nat) >= 1,
                                    ;
                                }
                            }
                        }
                    }
                    return None;
                },
            };
            let mult = pow10_u64(8 - (flen as u64));
            proof {
                lemma_digits_val_bound(f8);
                lemma_pow10_adds(f8.len() as nat, (8 - f8.len()) as nat);
                assert(fv * mult < 100_000_000) by (nonlinear_arith)
                    requires
                        fv < pow10(f8.len() as nat),
                        mult == pow10((8 - f8.len()) as nat),
                        pow10(f8.len() as nat) * pow10((8 - f8.len()) as nat) == 100_000_000,
                        mult >= 1,
                ;
                lemma_pow10_positive((8 - f8.len()) as nat);
            }
            let frac_units: u64 = fv * mult;
            proof {
                assert(all_digits(fp)) by {
                    assert(forall|k: int| 0 <= k < fp.len() ==> is_digit(#[trigger] fp[k])) by {
                        assert(forall|k: int| 0 <= k < f8.len() ==> #[trigger] fp[k] == f8[k]);
                        assert(forall|k: int|
                            8 <= k < fp.len() ==> #[trigger] fp[k] == s@[p + 1 + k] && s@[p + 1
                                + k] == 48);
                    }
                }
            }
            match iv.checked_mul(UNITS_PER_ONE) {
                None => {
                    proof {
                        assert(iv * 100_000_000 + frac_units > u64::MAX);
                    }
                    None
                },
                Some(scaled) => scaled.checked_add(frac_units),
            }
        },
    }
}

} // verus!
