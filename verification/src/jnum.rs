//! Textual forms of the integers that appear in control frames: decimal for
//! lengths, offsets and frame numbers, fixed-width lowercase hexadecimal for
//! project identifiers.  Each form has a spec-level printer, a spec-level
//! parser, executable versions pinned to them, and a lemma that the parser
//! inverts the printer.

use vstd::prelude::*;

verus! {

/// ASCII decimal digit.
pub open spec fn is_digit(b: u8) -> bool {
    0x30 <= b <= 0x39
}

/// Numeric value of an ASCII decimal digit.
pub open spec fn digit_val(b: u8) -> nat {
    (b - 0x30) as nat
}

/// The ASCII byte of a decimal digit value.
pub open spec fn digit_byte(d: nat) -> u8 {
    (0x30 + d) as u8
}

/// Lowercase hexadecimal digit (`0`-`9`, `a`-`f`).
pub open spec fn is_hex_digit(b: u8) -> bool {
    (0x30 <= b <= 0x39) || (0x61 <= b <= 0x66)
}

/// Numeric value of a lowercase hexadecimal digit.
pub open spec fn hex_val(b: u8) -> nat {
    if 0x30 <= b <= 0x39 {
        (b - 0x30) as nat
    } else {
        (b - 0x61 + 10) as nat
    }
}

/// The ASCII byte of a hexadecimal digit value, lowercase.
pub open spec fn hex_byte(d: nat) -> u8 {
    if d < 10 {
        (0x30 + d) as u8
    } else {
        (0x61 + (d - 10)) as u8
    }
}

/// Powers of ten.
pub open spec fn pow10(e: nat) -> nat
    decreases e,
{
    if e == 0 {
        1
    } else {
        10 * pow10((e - 1) as nat)
    }
}

/// Powers of sixteen.
pub open spec fn pow16(e: nat) -> nat
    decreases e,
{
    if e == 0 {
        1
    } else {
        16 * pow16((e - 1) as nat)
    }
}

pub proof fn lemma_pow10_pos(e: nat)
    ensures
        pow10(e) >= 1,
    decreases e,
{
    if e > 0 {
        lemma_pow10_pos((e - 1) as nat);
    }
}

pub proof fn lemma_pow16_pos(e: nat)
    ensures
        pow16(e) >= 1,
    decreases e,
{
    if e > 0 {
        lemma_pow16_pos((e - 1) as nat);
    }
}

/// The decimal form of a number: most significant digit first, no sign,
/// no leading zeros (`0` prints as the single digit `0`).
pub open spec fn spec_dec_digits(n: nat) -> Seq<u8>
    decreases n,
{
    if n < 10 {
        seq![digit_byte(n)]
    } else {
        spec_dec_digits(n / 10) + seq![digit_byte(n % 10)]
    }
}

/// The value of a digit string, most significant digit first.
pub open spec fn val_of(s: Seq<u8>) -> nat
    decreases s.len(),
{
    if s.len() == 0 {
        0
    } else {
        val_of(s.drop_last()) * 10 + digit_val(s.last())
    }
}

/// Basic shape of a decimal printout: nonempty, all digits, and reading it
/// back yields the number, which is below ten to the printout's length.
pub proof fn lemma_dec_digits_basic(n: nat)
    ensures
        spec_dec_digits(n).len() >= 1,
        forall|k: int|
            0 <= k < spec_dec_digits(n).len() ==> is_digit(#[trigger] spec_dec_digits(n)[k]),
        val_of(spec_dec_digits(n)) == n,
        n < pow10(spec_dec_digits(n).len() as nat),
    decreases n,
{
    if n < 10 {
        assert(spec_dec_digits(n) =~= seq![digit_byte(n)]);
        assert(spec_dec_digits(n).drop_last() =~= Seq::<u8>::empty());
        assert(val_of(spec_dec_digits(n)) == val_of(Seq::<u8>::empty()) * 10 + digit_val(
            digit_byte(n),
        ));
        assert(digit_val(digit_byte(n)) == n);
        assert(pow10(1) == 10) by {
            reveal_with_fuel(pow10, 2);
        }
    } else {
        lemma_dec_digits_basic(n / 10);
        let pre = spec_dec_digits(n / 10);
        let whole = spec_dec_digits(n);
        assert(whole =~= pre + seq![digit_byte(n % 10)]);
        assert(whole.drop_last() =~= pre);
        assert(val_of(whole) == val_of(pre) * 10 + digit_val(digit_byte(n % 10)));
        assert(digit_val(digit_byte(n % 10)) == n % 10);
        assert(val_of(whole) == (n / 10) * 10 + n % 10);
        assert((n / 10) * 10 + n % 10 == n) by {
            vstd::arithmetic::div_mod::lemma_fundamental_div_mod(n as int, 10);
        }
        assert(whole.len() == pre.len() + 1);
        assert(n < pow10(whole.len() as nat)) by {
            assert(n / 10 < pow10(pre.len() as nat));
            assert(pow10(whole.len() as nat) == 10 * pow10(pre.len() as nat));
            assert(n < 10 * (n / 10) + 10) by {
                vstd::arithmetic::div_mod::lemma_fundamental_div_mod(n as int, 10);
            }
        }
    }
}

/// A number below `pow10(k)` prints in at most `k` digits.
pub proof fn lemma_dec_digits_len_le(n: nat, k: nat)
    requires
        k >= 1,
        n < pow10(k),
    ensures
        spec_dec_digits(n).len() <= k,
    decreases n,
{
    if n >= 10 {
        assert(pow10(k) == 10 * pow10((k - 1) as nat));
        assert(k >= 2) by {
            if k == 1 {
                assert(pow10(1nat) == 10);
            }
        }
        assert(n / 10 < pow10((k - 1) as nat)) by {
            vstd::arithmetic::div_mod::lemma_fundamental_div_mod(n as int, 10);
        }
        lemma_dec_digits_len_le(n / 10, (k - 1) as nat);
    }
}

/// Appending a digit multiplies the value by ten and adds the digit.
pub proof fn lemma_val_of_append(s: Seq<u8>, b: u8)
    ensures
        val_of(s + seq![b]) == val_of(s) * 10 + digit_val(b),
{
    assert((s + seq![b]).drop_last() =~= s);
    assert((s + seq![b]).last() == b);
}

/// A digit string's value is below ten to its length.
pub proof fn lemma_val_of_bound(s: Seq<u8>)
    requires
        forall|k: int| 0 <= k < s.len() ==> is_digit(#[trigger] s[k]),
    ensures
        val_of(s) < pow10(s.len() as nat),
    decreases s.len(),
{
    if s.len() > 0 {
        lemma_val_of_bound(s.drop_last());
        assert(digit_val(s.last()) <= 9);
        assert(val_of(s.drop_last()) * 10 + 9 < pow10(s.len() as nat)) by {
            assert(val_of(s.drop_last()) <= pow10((s.len() - 1) as nat) - 1);
            assert(pow10(s.len() as nat) == 10 * pow10((s.len() - 1) as nat));
            assert(val_of(s.drop_last()) * 10 <= (pow10((s.len() - 1) as nat) - 1) * 10) by (
            nonlinear_arith)
                requires
                    val_of(s.drop_last()) <= pow10((s.len() - 1) as nat) - 1,
            ;
        }
    }
}

/// Where the run of decimal digits starting at `i` ends.
pub open spec fn digit_run_end(s: Seq<u8>, i: int) -> int
    decreases s.len() - i
    when 0 <= i <= s.len()
{
    if i < s.len() && is_digit(s[i]) {
        digit_run_end(s, i + 1)
    } else {
        i
    }
}

pub proof fn lemma_digit_run_end_props(s: Seq<u8>, i: int)
    requires
        0 <= i <= s.len(),
    ensures
        i <= digit_run_end(s, i) <= s.len(),
        forall|k: int| i <= k < digit_run_end(s, i) ==> is_digit(#[trigger] s[k]),
        digit_run_end(s, i) == s.len() || !is_digit(s[digit_run_end(s, i)]),
    decreases s.len() - i,
{
    if i < s.len() && is_digit(s[i]) {
        lemma_digit_run_end_props(s, i + 1);
    }
}

/// The run end is exactly the first non-digit position.
pub proof fn lemma_digit_run_end_exact(s: Seq<u8>, i: int, j: int)
    requires
        0 <= i <= j <= s.len(),
        forall|k: int| i <= k < j ==> is_digit(#[trigger] s[k]),
        j == s.len() || !is_digit(s[j]),
    ensures
        digit_run_end(s, i) == j,
    decreases j - i,
{
    if i < j {
        lemma_digit_run_end_exact(s, i + 1, j);
    }
}

/// Parse an unsigned decimal number at position `i`: the whole digit run is
/// consumed; there is no number if the run is empty or its value does not
/// fit in a `u64`.
pub open spec fn spec_parse_u64(s: Seq<u8>, i: int) -> Option<(u64, int)> {
    let j = digit_run_end(s, i);
    if j == i || j - i > 20 {
        None
    } else {
        let v = val_of(s.subrange(i, j));
        if v > 0xffff_ffff_ffff_ffff {
            None
        } else {
            Some((v as u64, j))
        }
    }
}

/// Append the decimal form of `n`.
pub fn push_dec(out: &mut Vec<u8>, n: u64)
    ensures
        final(out)@ == old(out)@ + spec_dec_digits(n as nat),
    decreases n,
{
    if n < 10 {
        out.push(0x30 + n as u8);
        proof {
            assert(out@ =~= old(out)@ + spec_dec_digits(n as nat));
        }
    } else {
        push_dec(out, n / 10);
        out.push(0x30 + (n % 10) as u8);
        proof {
            assert(out@ =~= old(out)@ + spec_dec_digits(n as nat));
        }
    }
}

/// Parse an unsigned decimal number at position `i`.
pub fn parse_u64(s: &Vec<u8>, i: usize) -> (r: Option<(u64, usize)>)
    requires
        i <= s@.len(),
    ensures
        match spec_parse_u64(s@, i as int) {
            Some((v, j)) => r matches Some((rv, rj)) && rv == v && rj == j,
            None => r is None,
        },
{
    proof {
        lemma_digit_run_end_props(s@, i as int);
    }
    let ghost jj = digit_run_end(s@, i as int);
    let mut j: usize = i;
    while j < s.len() && 0x30 <= s[j] && s[j] <= 0x39
        invariant
            i <= j <= s@.len(),
            jj == digit_run_end(s@, j as int),
            j <= jj,
        decreases s@.len() - j,
    {
        proof {
            assert(digit_run_end(s@, j as int) == digit_run_end(s@, j + 1));
            lemma_digit_run_end_props(s@, j + 1);
        }
        j = j + 1;
    }
    proof {
        assert(j == jj);
        lemma_digit_run_end_props(s@, i as int);
    }
    if j == i || j - i > 20 {
        return None;
    }
    let ghost digits = s@.subrange(i as int, j as int);
    proof {
        assert(forall|k: int| 0 <= k < digits.len() ==> is_digit(#[trigger] digits[k])) by {
            assert(forall|m: int| i <= m < j ==> is_digit(#[trigger] s@[m]));
        }
        lemma_val_of_bound(digits);
        lemma_pow10_mono(digits.len() as nat, 20);
        assert(pow10(20) == 100000000000000000000) by {
            reveal_with_fuel(pow10, 21);
        }
    }
    let mut acc: u128 = 0;
    let mut k: usize = i;
    while k < j
        invariant
            i <= k <= j <= s@.len(),
            digits == s@.subrange(i as int, j as int),
            forall|m: int| 0 <= m < digits.len() ==> is_digit(#[trigger] digits[m]),
            acc as nat == val_of(s@.subrange(i as int, k as int)),
            (acc as nat) < pow10((k - i) as nat),
            j - i <= 20,
        decreases j - k,
    {
        let d = s[k];
        proof {
            assert(s@.subrange(i as int, k + 1) =~= s@.subrange(i as int, k as int) + seq![s@[k as int]]);
            lemma_val_of_append(s@.subrange(i as int, k as int), s@[k as int]);
            assert(is_digit(s@[k as int])) by {
                assert(digits[k - i] == s@[k as int]);
            }
            lemma_pow10_mono(((k + 1) - i) as nat, 20);
            assert(pow10(20) == 100000000000000000000) by {
                reveal_with_fuel(pow10, 21);
            }
            assert((acc as nat) * 10 + digit_val(s@[k as int]) < pow10(((k + 1) - i) as nat)) by {
                assert(pow10(((k + 1) - i) as nat) == 10 * pow10((k - i) as nat));
                assert(acc as nat <= pow10((k - i) as nat) - 1);
                assert((acc as nat) * 10 <= (pow10((k - i) as nat) - 1) * 10) by (nonlinear_arith)
                    requires
                        acc as nat <= pow10((k - i) as nat) - 1,
                ;
            }
        }
        acc = acc * 10 + (d - 0x30) as u128;
        k = k + 1;
    }
    proof {
        assert(s@.subrange(i as int, j as int) =~= digits);
    }
    if acc > 0xffff_ffff_ffff_ffffu128 {
        None
    } else {
        Some((acc as u64, j))
    }
}

pub proof fn lemma_pow10_mono(a: nat, b: nat)
    requires
        a <= b,
    ensures
        pow10(a) <= pow10(b),
    decreases b,
{
    if a < b {
        lemma_pow10_mono(a, (b - 1) as nat);
        lemma_pow10_pos((b - 1) as nat);
    }
}

/// The parser reads back exactly what the printer wrote, when the byte after
/// the printout (if any) is not a digit.
pub proof fn lemma_parse_dec_of_digits(s: Seq<u8>, i: int, n: u64)
    requires
        0 <= i,
        i + spec_dec_digits(n as nat).len() <= s.len(),
        s.subrange(i, i + spec_dec_digits(n as nat).len()) == spec_dec_digits(n as nat),
        i + spec_dec_digits(n as nat).len() == s.len() || !is_digit(
            s[i + spec_dec_digits(n as nat).len()],
        ),
    ensures
        spec_parse_u64(s, i) == Some((n, i + spec_dec_digits(n as nat).len())),
{
    let d = spec_dec_digits(n as nat);
    let j = i + d.len();
    lemma_dec_digits_basic(n as nat);
    assert(forall|k: int| i <= k < j ==> is_digit(#[trigger] s[k])) by {
        assert(forall|k: int| i <= k < j ==> s[k] == d[k - i]);
    }
    lemma_digit_run_end_exact(s, i, j);
    assert(s.subrange(i, j) == d);
    assert(val_of(s.subrange(i, j)) == n as nat);
    assert(d.len() <= 20) by {
        assert((n as nat) < pow10(20)) by {
            assert(pow10(20) == 100000000000000000000) by {
                reveal_with_fuel(pow10, 21);
            }
        }
        lemma_dec_digits_len_le(n as nat, 20);
    }
}

/// `k` lowercase hexadecimal digits of `u`, most significant first.
/// (The power of sixteen is never zero; the test keeps the recursion
/// argument total.)
pub open spec fn spec_hex_digits(u: nat, k: nat) -> Seq<u8>
    decreases k,
{
    if k == 0 {
        Seq::empty()
    } else {
        let p = pow16((k - 1) as nat);
        let rest = if p == 0 {
            0nat
        } else {
            u % p
        };
        seq![hex_byte(u / p % 16)] + spec_hex_digits(rest, (k - 1) as nat)
    }
}

/// Parse exactly `k` lowercase hexadecimal digits at position `i`.
pub open spec fn spec_parse_hex(s: Seq<u8>, i: int, k: nat) -> Option<(nat, int)>
    decreases k,
{
    if k == 0 {
        Some((0, i))
    } else if 0 <= i < s.len() && is_hex_digit(s[i]) {
        match spec_parse_hex(s, i + 1, (k - 1) as nat) {
            Some((v, j)) => Some((hex_val(s[i]) * pow16((k - 1) as nat) + v, j)),
            None => None,
        }
    } else {
        None
    }
}

/// A successful hex parse of `k` digits lands exactly `k` positions further
/// and yields a value below `pow16(k)`.
pub proof fn lemma_parse_hex_shape(s: Seq<u8>, i: int, k: nat)
    ensures
        match spec_parse_hex(s, i, k) {
            Some((v, j)) => j == i + k && v < pow16(k) && (k > 0 ==> 0 <= i && i + k <= s.len()),
            None => true,
        },
    decreases k,
{
    if k > 0 && 0 <= i < s.len() && is_hex_digit(s[i]) {
        lemma_parse_hex_shape(s, i + 1, (k - 1) as nat);
        if spec_parse_hex(s, i + 1, (k - 1) as nat) is Some {
            let (v, _j) = spec_parse_hex(s, i + 1, (k - 1) as nat)->Some_0;
            assert(hex_val(s[i]) <= 15);
            assert(hex_val(s[i]) * pow16((k - 1) as nat) + v < pow16(k)) by (nonlinear_arith)
                requires
                    hex_val(s[i]) <= 15,
                    v < pow16((k - 1) as nat),
                    pow16(k) == 16 * pow16((k - 1) as nat),
            ;
        }
    }
}

/// Sixteen to the `e`, as a `u128`.
pub fn pow16_u128(e: usize) -> (r: u128)
    requires
        e <= 31,
    ensures
        r as nat == pow16(e as nat),
        r >= 1,
    decreases e,
{
    if e == 0 {
        1
    } else {
        let p = pow16_u128(e - 1);
        proof {
            lemma_pow16_mono((e - 1) as nat, 30);
            assert(pow16(30) == 0x1000000000000000000000000000000) by {
                reveal_with_fuel(pow16, 31);
            }
        }
        16 * p
    }
}

pub proof fn lemma_pow16_mono(a: nat, b: nat)
    requires
        a <= b,
    ensures
        pow16(a) <= pow16(b),
    decreases b,
{
    if a < b {
        lemma_pow16_mono(a, (b - 1) as nat);
        lemma_pow16_pos((b - 1) as nat);
    }
}

/// Append `k` lowercase hexadecimal digits of `u`, most significant first.
pub fn push_hex(out: &mut Vec<u8>, u: u128, k: usize)
    requires
        k <= 32,
        (u as nat) < pow16(k as nat),
    ensures
        final(out)@ == old(out)@ + spec_hex_digits(u as nat, k as nat),
    decreases k,
{
    if k == 0 {
        proof {
            assert(out@ =~= old(out)@ + spec_hex_digits(u as nat, 0));
        }
    } else {
        let p = pow16_u128(k - 1);
        let d = u / p;
        let rest = u % p;
        proof {
            assert(d < 16) by (nonlinear_arith)
                requires
                    (u as nat) < 16 * pow16((k - 1) as nat),
                    p as nat == pow16((k - 1) as nat),
                    p >= 1,
                    d == u / p,
            ;
            assert(d as nat % 16 == d as nat) by {
                vstd::arithmetic::div_mod::lemma_small_mod(d as nat, 16);
            }
            assert((rest as nat) < pow16((k - 1) as nat)) by {
                vstd::arithmetic::div_mod::lemma_mod_bound(u as int, p as int);
            }
        }
        let db: u8 = if d < 10 {
            0x30 + d as u8
        } else {
            0x61 + (d as u8 - 10)
        };
        proof {
            assert(db == hex_byte(d as nat));
        }
        out.push(db);
        push_hex(out, rest, k - 1);
        proof {
            assert((u as nat) / pow16((k - 1) as nat) % 16 == d as nat);
            assert((u as nat) % pow16((k - 1) as nat) == rest as nat);
            assert(out@ =~= old(out)@ + spec_hex_digits(u as nat, k as nat));
        }
    }
}

/// Parse exactly `k` lowercase hexadecimal digits at position `i`.
pub fn parse_hex(s: &Vec<u8>, i: usize, k: usize) -> (r: Option<(u128, usize)>)
    requires
        i <= s@.len(),
        k <= 32,
    ensures
        match spec_parse_hex(s@, i as int, k as nat) {
            Some((v, j)) => r matches Some((rv, rj)) && (rv as nat) == v && rj == j,
            None => r is None,
        },
    decreases k,
{
    proof {
        lemma_parse_hex_shape(s@, i as int, k as nat);
    }
    if k == 0 {
        Some((0, i))
    } else if i < s.len() && (0x30 <= s[i] && s[i] <= 0x39 || 0x61 <= s[i] && s[i] <= 0x66) {
        let b = s[i];
        let d: u128 = if b <= 0x39 {
            (b - 0x30) as u128
        } else {
            (b - 0x61 + 10) as u128
        };
        proof {
            assert(d as nat == hex_val(b));
            lemma_parse_hex_shape(s@, i as int + 1, (k - 1) as nat);
        }
        match parse_hex(s, i + 1, k - 1) {
            Some((v, j)) => {
                let p = pow16_u128(k - 1);
                proof {
                    assert(d <= 15);
                    assert(p as nat == pow16((k - 1) as nat));
                    lemma_pow16_mono((k - 1) as nat, 31);
                    assert(pow16(31) == 0x10000000000000000000000000000000) by {
                        reveal_with_fuel(pow16, 32);
                    }
                    assert((d as nat) * (p as nat) + (v as nat) < 0x100000000000000000000000000000000)
                        by (nonlinear_arith)
                        requires
                            d <= 15,
                            (v as nat) < (p as nat),
                            p as nat <= 0x10000000000000000000000000000000,
                    ;
                }
                Some((d * p + v, j))
            },
            None => None,
        }
    } else {
        None
    }
}

/// The hex parser reads back exactly what the hex printer wrote.
pub proof fn lemma_parse_hex_of_digits(s: Seq<u8>, i: int, u: nat, k: nat)
    requires
        0 <= i,
        u < pow16(k),
        i + k <= s.len(),
        s.subrange(i, i + k) == spec_hex_digits(u, k),
    ensures
        spec_parse_hex(s, i, k) == Some((u, i + k)),
    decreases k,
{
    lemma_hex_digits_len(u, k);
    if k > 0 {
        let p = pow16((k - 1) as nat);
        lemma_pow16_pos((k - 1) as nat);
        assert(u / p < 16) by (nonlinear_arith)
            requires
                u < 16 * p,
                p >= 1,
        ;
        assert(u / p % 16 == u / p) by {
            vstd::arithmetic::div_mod::lemma_small_mod(u / p, 16);
        }
        let msd = u / p;
        let rest = u % p;
        let tail = spec_hex_digits(rest, (k - 1) as nat);
        let whole = spec_hex_digits(u, k);
        assert(whole == seq![hex_byte(msd)] + tail);
        assert(s[i] == hex_byte(msd)) by {
            assert(s.subrange(i, i + k)[0] == s[i]);
        }
        assert(is_hex_digit(hex_byte(msd)) && hex_val(hex_byte(msd)) == msd);
        assert(rest < p) by {
            vstd::arithmetic::div_mod::lemma_mod_bound(u as int, p as int);
        }
        lemma_hex_digits_len(rest, (k - 1) as nat);
        assert forall|m: int| 0 <= m < k - 1 implies s.subrange(i + 1, i + k)[m] == tail[m] by {
            assert(s.subrange(i + 1, i + k)[m] == s[i + 1 + m]);
            assert(s.subrange(i, i + k)[m + 1] == s[i + 1 + m]);
            assert(whole[m + 1] == tail[m]);
        }
        assert(s.subrange(i + 1, i + k) =~= tail);
        lemma_parse_hex_of_digits(s, i + 1, rest, (k - 1) as nat);
        assert(msd * p + rest == u) by {
            vstd::arithmetic::div_mod::lemma_fundamental_div_mod(u as int, p as int);
        }
    }
}

/// The printer emits exactly `k` bytes.
pub proof fn lemma_hex_digits_len(u: nat, k: nat)
    ensures
        spec_hex_digits(u, k).len() == k,
    decreases k,
{
    if k > 0 {
        lemma_pow16_pos((k - 1) as nat);
        lemma_hex_digits_len(u % pow16((k - 1) as nat), (k - 1) as nat);
    }
}

/// Powers of sixteen multiply as exponents add.
pub proof fn lemma_pow16_add(a: nat, b: nat)
    ensures
        pow16(a + b) == pow16(a) * pow16(b),
    decreases a,
{
    if a == 0 {
        assert(pow16(b) == 1 * pow16(b));
    } else {
        lemma_pow16_add((a - 1) as nat, b);
        assert(pow16(a + b) == 16 * pow16((a - 1) as nat + b));
        assert(16 * (pow16((a - 1) as nat) * pow16(b)) == (16 * pow16((a - 1) as nat)) * pow16(b))
            by (nonlinear_arith);
    }
}

/// The five dash-separated groups of a hyphenated identifier: the high 8
/// hex digits, three groups of 4, and the low 12.
pub open spec fn spec_uuid_str(u: u128) -> Seq<u8> {
    let g1 = (u as nat) / pow16(24);
    let r1 = if pow16(24) == 0 {
        0nat
    } else {
        (u as nat) % pow16(24)
    };
    let g2 = r1 / pow16(20);
    let r2 = if pow16(20) == 0 {
        0nat
    } else {
        r1 % pow16(20)
    };
    let g3 = r2 / pow16(16);
    let r3 = if pow16(16) == 0 {
        0nat
    } else {
        r2 % pow16(16)
    };
    let g4 = r3 / pow16(12);
    let g5 = if pow16(12) == 0 {
        0nat
    } else {
        r3 % pow16(12)
    };
    spec_hex_digits(g1, 8) + (seq![0x2du8] + (spec_hex_digits(g2, 4) + (seq![0x2du8]
        + (spec_hex_digits(g3, 4) + (seq![0x2du8] + (spec_hex_digits(g4, 4) + (seq![0x2du8]
        + spec_hex_digits(g5, 12))))))))
}

/// The hyphenated form is 36 bytes long.
pub proof fn lemma_uuid_str_len(u: u128)
    ensures
        spec_uuid_str(u).len() == 36,
{
    let g1 = (u as nat) / pow16(24);
    let r1 = (u as nat) % pow16(24);
    let g2 = r1 / pow16(20);
    let r2 = r1 % pow16(20);
    let g3 = r2 / pow16(16);
    let r3 = r2 % pow16(16);
    let g4 = r3 / pow16(12);
    let g5 = r3 % pow16(12);
    lemma_pow16_pos(24);
    lemma_pow16_pos(20);
    lemma_pow16_pos(16);
    lemma_pow16_pos(12);
    lemma_hex_digits_len(g1, 8);
    lemma_hex_digits_len(g2, 4);
    lemma_hex_digits_len(g3, 4);
    lemma_hex_digits_len(g4, 4);
    lemma_hex_digits_len(g5, 12);
}

/// Append the hyphenated lowercase hexadecimal form of `u`, as project
/// identifiers appear on the wire.
pub fn push_uuid(out: &mut Vec<u8>, u: u128)
    ensures
        final(out)@ == old(out)@ + spec_uuid_str(u),
{
    proof {
        lemma_pow16_pos(24);
        lemma_pow16_pos(20);
        lemma_pow16_pos(16);
        lemma_pow16_pos(12);
    }
    let p24 = pow16_u128(24);
    let p20 = pow16_u128(20);
    let p16v = pow16_u128(16);
    let p12 = pow16_u128(12);
    let g1 = u / p24;
    let r1 = u % p24;
    let g2 = r1 / p20;
    let r2 = r1 % p20;
    let g3 = r2 / p16v;
    let r3 = r2 % p16v;
    let g4 = r3 / p12;
    let g5 = r3 % p12;
    proof {
        assert(pow16(32) == 0x100000000000000000000000000000000) by {
            reveal_with_fuel(pow16, 33);
        }
        lemma_pow16_add(8, 24);
        assert((g1 as nat) < pow16(8)) by (nonlinear_arith)
            requires
                (u as nat) < pow16(8) * pow16(24),
                p24 as nat == pow16(24),
                p24 >= 1,
                g1 == u / p24,
                pow16(8) * pow16(24) == pow16(32),
                (u as nat) < pow16(32),
        ;
        lemma_pow16_add(4, 20);
        assert((r1 as nat) < pow16(24));
        assert((g2 as nat) < pow16(4)) by (nonlinear_arith)
            requires
                (r1 as nat) < pow16(4) * pow16(20),
                p20 as nat == pow16(20),
                p20 >= 1,
                g2 == r1 / p20,
                pow16(4) * pow16(20) == pow16(24),
                (r1 as nat) < pow16(24),
        ;
        lemma_pow16_add(4, 16);
        assert((r2 as nat) < pow16(20));
        assert((g3 as nat) < pow16(4)) by (nonlinear_arith)
            requires
                p16v as nat == pow16(16),
                p16v >= 1,
                g3 == r2 / p16v,
                pow16(4) * pow16(16) == pow16(20),
                (r2 as nat) < pow16(20),
        ;
        lemma_pow16_add(4, 12);
        assert((r3 as nat) < pow16(16));
        assert((g4 as nat) < pow16(4)) by (nonlinear_arith)
            requires
                p12 as nat == pow16(12),
                p12 >= 1,
                g4 == r3 / p12,
                pow16(4) * pow16(12) == pow16(16),
                (r3 as nat) < pow16(16),
        ;
        assert((g5 as nat) < pow16(12));
    }
    push_hex(out, g1, 8);
    out.push(0x2d);
    push_hex(out, g2, 4);
    out.push(0x2d);
    push_hex(out, g3, 4);
    out.push(0x2d);
    push_hex(out, g4, 4);
    out.push(0x2d);
    push_hex(out, g5, 12);
    proof {
        assert(out@ =~= old(out)@ + spec_uuid_str(u));
    }
}

/// Parse a hyphenated lowercase hexadecimal identifier at position `i`.
pub open spec fn spec_parse_uuid(s: Seq<u8>, i: int) -> Option<(u128, int)> {
    match spec_parse_hex(s, i, 8) {
        None => None,
        Some((g1, i1)) => if i1 < s.len() && s[i1] == 0x2d {
            match spec_parse_hex(s, i1 + 1, 4) {
                None => None,
                Some((g2, i2)) => if i2 < s.len() && s[i2] == 0x2d {
                    match spec_parse_hex(s, i2 + 1, 4) {
                        None => None,
                        Some((g3, i3)) => if i3 < s.len() && s[i3] == 0x2d {
                            match spec_parse_hex(s, i3 + 1, 4) {
                                None => None,
                                Some((g4, i4)) => if i4 < s.len() && s[i4] == 0x2d {
                                    match spec_parse_hex(s, i4 + 1, 12) {
                                        None => None,
                                        Some((g5, i5)) => Some(
                                            (
                                                ((((g1 * pow16(4) + g2) * pow16(4) + g3) * pow16(4)
                                                    + g4) * pow16(12) + g5) as u128,
                                                i5,
                                            ),
                                        ),
                                    }
                                } else {
                                    None
                                },
                            }
                        } else {
                            None
                        },
                    }
                } else {
                    None
                },
            }
        } else {
            None
        },
    }
}

/// Parse a hyphenated lowercase hexadecimal identifier at position `i`.
pub fn parse_uuid(s: &Vec<u8>, i: usize) -> (r: Option<(u128, usize)>)
    requires
        i <= s@.len(),
    ensures
        match spec_parse_uuid(s@, i as int) {
            Some((v, j)) => r matches Some((rv, rj)) && rv == v && rj == j,
            None => r is None,
        },
{
    proof {
        lemma_parse_hex_shape(s@, i as int, 8);
    }
    let (g1, i1) = match parse_hex(s, i, 8) {
        None => {
            return None;
        },
        Some(x) => x,
    };
    if !(i1 < s.len() && s[i1] == 0x2d) {
        return None;
    }
    proof {
        lemma_parse_hex_shape(s@, i1 + 1, 4);
    }
    let (g2, i2) = match parse_hex(s, i1 + 1, 4) {
        None => {
            return None;
        },
        Some(x) => x,
    };
    if !(i2 < s.len() && s[i2] == 0x2d) {
        return None;
    }
    proof {
        lemma_parse_hex_shape(s@, i2 + 1, 4);
    }
    let (g3, i3) = match parse_hex(s, i2 + 1, 4) {
        None => {
            return None;
        },
        Some(x) => x,
    };
    if !(i3 < s.len() && s[i3] == 0x2d) {
        return None;
    }
    proof {
        lemma_parse_hex_shape(s@, i3 + 1, 4);
    }
    let (g4, i4) = match parse_hex(s, i3 + 1, 4) {
        None => {
            return None;
        },
        Some(x) => x,
    };
    if !(i4 < s.len() && s[i4] == 0x2d) {
        return None;
    }
    proof {
        lemma_parse_hex_shape(s@, i4 + 1, 12);
    }
    let (g5, i5) = match parse_hex(s, i4 + 1, 12) {
        None => {
            return None;
        },
        Some(x) => x,
    };
    let p4 = pow16_u128(4);
    let p12 = pow16_u128(12);
    proof {
        lemma_parse_hex_shape(s@, i as int, 8);
        assert((g1 as nat) < pow16(8));
        assert((g2 as nat) < pow16(4));
        assert((g3 as nat) < pow16(4));
        assert((g4 as nat) < pow16(4));
        assert((g5 as nat) < pow16(12));
        lemma_pow16_add(8, 4);
        lemma_pow16_add(12, 4);
        lemma_pow16_add(16, 4);
        lemma_pow16_add(20, 12);
        assert(pow16(32) == 0x100000000000000000000000000000000) by {
            reveal_with_fuel(pow16, 33);
        }
        assert(((g1 as nat) * pow16(4) + g2 as nat) < pow16(12)) by (nonlinear_arith)
            requires
                (g1 as nat) < pow16(8),
                (g2 as nat) < pow16(4),
                pow16(12) == pow16(8) * pow16(4),
        ;
        assert((((g1 as nat) * pow16(4) + g2 as nat) * pow16(4) + g3 as nat) < pow16(16))
            by (nonlinear_arith)
            requires
                ((g1 as nat) * pow16(4) + g2 as nat) < pow16(12),
                (g3 as nat) < pow16(4),
                pow16(16) == pow16(12) * pow16(4),
        ;
        assert(((((g1 as nat) * pow16(4) + g2 as nat) * pow16(4) + g3 as nat) * pow16(4)
            + g4 as nat) < pow16(20)) by (nonlinear_arith)
            requires
                (((g1 as nat) * pow16(4) + g2 as nat) * pow16(4) + g3 as nat) < pow16(16),
                (g4 as nat) < pow16(4),
                pow16(20) == pow16(16) * pow16(4),
        ;
        assert((((((g1 as nat) * pow16(4) + g2 as nat) * pow16(4) + g3 as nat) * pow16(4)
            + g4 as nat) * pow16(12) + g5 as nat) < pow16(32)) by (nonlinear_arith)
            requires
                ((((g1 as nat) * pow16(4) + g2 as nat) * pow16(4) + g3 as nat) * pow16(4)
                    + g4 as nat) < pow16(20),
                (g5 as nat) < pow16(12),
                pow16(32) == pow16(20) * pow16(12),
        ;
    }
    let v = ((g1 * p4 + g2) * p4 + g3) * p4 + g4;
    let v = v * p12 + g5;
    Some((v, i5))
}

/// The identifier parser reads back exactly what the printer wrote.
pub proof fn lemma_parse_uuid_of_str(s: Seq<u8>, i: int, u: u128)
    requires
        0 <= i,
        i + 36 <= s.len(),
        s.subrange(i, i + 36) == spec_uuid_str(u),
    ensures
        spec_parse_uuid(s, i) == Some((u, i + 36)),
{
    lemma_pow16_pos(24);
    lemma_pow16_pos(20);
    lemma_pow16_pos(16);
    lemma_pow16_pos(12);
    let g1 = (u as nat) / pow16(24);
    let r1 = (u as nat) % pow16(24);
    let g2 = r1 / pow16(20);
    let r2 = r1 % pow16(20);
    let g3 = r2 / pow16(16);
    let r3 = r2 % pow16(16);
    let g4 = r3 / pow16(12);
    let g5 = r3 % pow16(12);
    let d1 = spec_hex_digits(g1, 8);
    let d2 = spec_hex_digits(g2, 4);
    let d3 = spec_hex_digits(g3, 4);
    let d4 = spec_hex_digits(g4, 4);
    let d5 = spec_hex_digits(g5, 12);
    lemma_hex_digits_len(g1, 8);
    lemma_hex_digits_len(g2, 4);
    lemma_hex_digits_len(g3, 4);
    lemma_hex_digits_len(g4, 4);
    lemma_hex_digits_len(g5, 12);
    let w = spec_uuid_str(u);
    assert forall|m: int| 0 <= m < 36 implies s[i + m] == w[m] by {
        assert(s.subrange(i, i + 36)[m] == s[i + m]);
    }
    assert(pow16(32) == 0x100000000000000000000000000000000) by {
        reveal_with_fuel(pow16, 33);
    }
    lemma_pow16_add(8, 24);
    assert(g1 < pow16(8)) by (nonlinear_arith)
        requires
            (u as nat) < pow16(32),
            pow16(32) == pow16(8) * pow16(24),
            pow16(24) >= 1,
            g1 == (u as nat) / pow16(24),
    ;
    assert(r1 < pow16(24)) by {
        vstd::arithmetic::div_mod::lemma_mod_bound(u as int, pow16(24) as int);
    }
    lemma_pow16_add(4, 20);
    assert(g2 < pow16(4)) by (nonlinear_arith)
        requires
            r1 < pow16(24),
            pow16(24) == pow16(4) * pow16(20),
            pow16(20) >= 1,
            g2 == r1 / pow16(20),
    ;
    assert(r2 < pow16(20)) by {
        vstd::arithmetic::div_mod::lemma_mod_bound(r1 as int, pow16(20) as int);
    }
    lemma_pow16_add(4, 16);
    assert(g3 < pow16(4)) by (nonlinear_arith)
        requires
            r2 < pow16(20),
            pow16(20) == pow16(4) * pow16(16),
            pow16(16) >= 1,
            g3 == r2 / pow16(16),
    ;
    assert(r3 < pow16(16)) by {
        vstd::arithmetic::div_mod::lemma_mod_bound(r2 as int, pow16(16) as int);
    }
    lemma_pow16_add(4, 12);
    assert(g4 < pow16(4)) by (nonlinear_arith)
        requires
            r3 < pow16(16),
            pow16(16) == pow16(4) * pow16(12),
            pow16(12) >= 1,
            g4 == r3 / pow16(12),
    ;
    assert(g5 < pow16(12)) by {
        vstd::arithmetic::div_mod::lemma_mod_bound(r3 as int, pow16(12) as int);
    }
    assert(s.subrange(i, i + 8) =~= d1) by {
        assert forall|m: int| 0 <= m < 8 implies s.subrange(i, i + 8)[m] == d1[m] by {
            assert(s[i + m] == w[m]);
            assert(w[m] == d1[m]);
        }
    }
    lemma_parse_hex_of_digits(s, i, g1, 8);
    assert(w[8] == 0x2d);
    assert(s[i + 8] == 0x2d) by {
        assert(s[i + 8] == w[8]);
    }
    assert(s.subrange(i + 9, i + 13) =~= d2) by {
        assert forall|m: int| 0 <= m < 4 implies s.subrange(i + 9, i + 13)[m] == d2[m] by {
            assert(s[i + 9 + m] == w[9 + m]);
            assert(w[9 + m] == d2[m]);
        }
    }
    lemma_parse_hex_of_digits(s, i + 9, g2, 4);
    assert(w[13] == 0x2d);
    assert(s[i + 13] == 0x2d) by {
        assert(s[i + 13] == w[13]);
    }
    assert(s.subrange(i + 14, i + 18) =~= d3) by {
        assert forall|m: int| 0 <= m < 4 implies s.subrange(i + 14, i + 18)[m] == d3[m] by {
            assert(s[i + 14 + m] == w[14 + m]);
            assert(w[14 + m] == d3[m]);
        }
    }
    lemma_parse_hex_of_digits(s, i + 14, g3, 4);
    assert(w[18] == 0x2d);
    assert(s[i + 18] == 0x2d) by {
        assert(s[i + 18] == w[18]);
    }
    assert(s.subrange(i + 19, i + 23) =~= d4) by {
        assert forall|m: int| 0 <= m < 4 implies s.subrange(i + 19, i + 23)[m] == d4[m] by {
            assert(s[i + 19 + m] == w[19 + m]);
            assert(w[19 + m] == d4[m]);
        }
    }
    lemma_parse_hex_of_digits(s, i + 19, g4, 4);
    assert(w[23] == 0x2d);
    assert(s[i + 23] == 0x2d) by {
        assert(s[i + 23] == w[23]);
    }
    assert(s.subrange(i + 24, i + 36) =~= d5) by {
        assert forall|m: int| 0 <= m < 12 implies s.subrange(i + 24, i + 36)[m] == d5[m] by {
            assert(s[i + 24 + m] == w[24 + m]);
            assert(w[24 + m] == d5[m]);
        }
    }
    lemma_parse_hex_of_digits(s, i + 24, g5, 12);
    assert((((g1 * pow16(4) + g2) * pow16(4) + g3) * pow16(4) + g4) * pow16(12) + g5 == u as nat)
        by {
        vstd::arithmetic::div_mod::lemma_fundamental_div_mod(u as int, pow16(24) as int);
        vstd::arithmetic::div_mod::lemma_fundamental_div_mod(r1 as int, pow16(20) as int);
        vstd::arithmetic::div_mod::lemma_fundamental_div_mod(r2 as int, pow16(16) as int);
        vstd::arithmetic::div_mod::lemma_fundamental_div_mod(r3 as int, pow16(12) as int);
        assert(u as nat == g1 * pow16(24) + r1);
        assert(r1 == g2 * pow16(20) + r2);
        assert(r2 == g3 * pow16(16) + r3);
        assert(r3 == g4 * pow16(12) + g5);
        lemma_pow16_add(4, 20);
        lemma_pow16_add(4, 16);
        lemma_pow16_add(4, 12);
        assert((((g1 * pow16(4) + g2) * pow16(4) + g3) * pow16(4) + g4) * pow16(12) + g5 == g1 * (
        pow16(4) * (pow16(4) * (pow16(4) * pow16(12)))) + g2 * (pow16(4) * (pow16(4) * pow16(12)))
            + g3 * (pow16(4) * pow16(12)) + g4 * pow16(12) + g5) by (nonlinear_arith);
        assert(pow16(4) * pow16(12) == pow16(16));
        assert(pow16(4) * (pow16(4) * pow16(12)) == pow16(20)) by {
            assert(pow16(4) * pow16(16) == pow16(20));
        }
        assert(pow16(4) * (pow16(4) * (pow16(4) * pow16(12))) == pow16(24)) by {
            assert(pow16(4) * (pow16(4) * pow16(12)) == pow16(20));
            assert(pow16(4) * pow16(20) == pow16(24));
        }
        assert(g1 * pow16(24) + g2 * pow16(20) + g3 * pow16(16) + g4 * pow16(12) + g5 == u as nat)
            by (nonlinear_arith)
            requires
                u as nat == g1 * pow16(24) + r1,
                r1 == g2 * pow16(20) + r2,
                r2 == g3 * pow16(16) + r3,
                r3 == g4 * pow16(12) + g5,
        ;
    }
}



/// A successful identifier parse spans exactly 36 bytes, within bounds.
pub proof fn lemma_parse_uuid_shape(s: Seq<u8>, i: int)
    ensures
        match spec_parse_uuid(s, i) {
            Some((v, j)) => j == i + 36 && 0 <= i && j <= s.len(),
            None => true,
        },
{
    lemma_parse_hex_shape(s, i, 8);
    if spec_parse_hex(s, i, 8) is Some {
        let (g1, i1) = spec_parse_hex(s, i, 8)->Some_0;
        if i1 < s.len() && s[i1] == 0x2d {
            lemma_parse_hex_shape(s, i1 + 1, 4);
            if spec_parse_hex(s, i1 + 1, 4) is Some {
                let (g2, i2) = spec_parse_hex(s, i1 + 1, 4)->Some_0;
                if i2 < s.len() && s[i2] == 0x2d {
                    lemma_parse_hex_shape(s, i2 + 1, 4);
                    if spec_parse_hex(s, i2 + 1, 4) is Some {
                        let (g3, i3) = spec_parse_hex(s, i2 + 1, 4)->Some_0;
                        if i3 < s.len() && s[i3] == 0x2d {
                            lemma_parse_hex_shape(s, i3 + 1, 4);
                            if spec_parse_hex(s, i3 + 1, 4) is Some {
                                let (g4, i4) = spec_parse_hex(s, i3 + 1, 4)->Some_0;
                                if i4 < s.len() && s[i4] == 0x2d {
                                    lemma_parse_hex_shape(s, i4 + 1, 12);
                                }
                            }
                        }
                    }
                }
            }
        }
    }
}

} // verus!
