//! Decimal numerals as byte sequences: the canonical digits of a number, and
//! parsing in the style of the standard integer parsers (optional sign, one or
//! more digits, rejecting values out of range).
use vstd::prelude::*;

verus! {

/// Canonical decimal digits of `n`, most significant first.
pub open spec fn dec_nat(n: nat) -> Seq<u8>
    decreases n,
{
    if n < 10 {
        seq![(48 + n) as u8]
    } else {
        dec_nat(n / 10) + seq![(48 + n % 10) as u8]
    }
}

/// Canonical decimal form of an integer: a `-` sign for negative values.
pub open spec fn dec_int(i: int) -> Seq<u8> {
    if i >= 0 {
        dec_nat(i as nat)
    } else {
        seq![45u8] + dec_nat((-i) as nat)
    }
}

/// Every byte is an ASCII digit.
pub open spec fn is_digits(s: Seq<u8>) -> bool {
    forall|i: int| 0 <= i < s.len() ==> 48 <= #[trigger] s[i] <= 57
}

/// The number denoted by a sequence of ASCII digits.
pub open spec fn dec_value(s: Seq<u8>) -> nat
    decreases s.len(),
{
    if s.len() == 0 {
        0
    } else {
        (10 * dec_value(s.drop_last()) + (s.last() - 48)) as nat
    }
}

/// The digit strings (after an optional sign) that the unsigned parser accepts.
pub open spec fn strip_plus(s: Seq<u8>) -> Seq<u8> {
    if s.len() > 0 && s[0] == 43 {
        s.drop_first()
    } else {
        s
    }
}

/// Exactly the inputs on which `u64::from_str` succeeds.
pub open spec fn u64_str_ok(s: Seq<u8>) -> bool {
    let d = strip_plus(s);
    d.len() > 0 && is_digits(d) && dec_value(d) <= u64::MAX
}

pub open spec fn u64_str_value(s: Seq<u8>) -> nat {
    dec_value(strip_plus(s))
}

/// The digits (after an optional `+` or `-`) of a signed numeral.
pub open spec fn int_str_digits(s: Seq<u8>) -> Seq<u8> {
    if s.len() > 0 && (s[0] == 43 || s[0] == 45) {
        s.drop_first()
    } else {
        s
    }
}

pub open spec fn int_str_negative(s: Seq<u8>) -> bool {
    s.len() > 0 && s[0] == 45
}

pub open spec fn int_str_value(s: Seq<u8>) -> int {
    if int_str_negative(s) {
        -(dec_value(int_str_digits(s)) as int)
    } else {
        dec_value(int_str_digits(s)) as int
    }
}

/// Exactly the inputs on which `i64::from_str` succeeds.
pub open spec fn i64_str_ok(s: Seq<u8>) -> bool {
    let d = int_str_digits(s);
    d.len() > 0 && is_digits(d) && i64::MIN <= int_str_value(s) <= i64::MAX
}

/// Exactly the inputs on which `i32::from_str` succeeds.
pub open spec fn i32_str_ok(s: Seq<u8>) -> bool {
    let d = int_str_digits(s);
    d.len() > 0 && is_digits(d) && i32::MIN <= int_str_value(s) <= i32::MAX
}

/// The canonical digits of `n` denote `n`, are digits, and start with a
/// nonzero digit unless `n` is zero.
pub proof fn lemma_dec_nat(n: nat)
    ensures
        dec_nat(n).len() >= 1,
        is_digits(dec_nat(n)),
        dec_value(dec_nat(n)) == n,
        n > 0 ==> dec_nat(n)[0] != 48,
        n < 10 ==> dec_nat(n).len() == 1,
    decreases n,
{
    if n < 10 {
        let s = dec_nat(n);
        assert(s =~= seq![(48 + n) as u8]);
        assert(s.drop_last() =~= Seq::<u8>::empty());
        assert(dec_value(s.drop_last()) == 0);
        assert(dec_value(s) == n);
    } else {
        lemma_dec_nat(n / 10);
        let d = dec_nat(n / 10) + seq![(48 + n % 10) as u8];
        assert(d.drop_last() =~= dec_nat(n / 10));
        assert(d.last() == (48 + n % 10) as u8);
        assert(dec_value(d) == 10 * (n / 10) + n % 10);
        assert(10 * (n / 10) + n % 10 == n) by (nonlinear_arith);
        assert(d[0] == dec_nat(n / 10)[0]);
    }
}

/// A digit prefix never denotes more than the whole digit string.
pub proof fn lemma_dec_value_prefix(s: Seq<u8>, k: int)
    requires
        0 <= k <= s.len(),
        is_digits(s),
    ensures
        dec_value(s.take(k)) <= dec_value(s),
    decreases s.len() - k,
{
    if k < s.len() {
        lemma_dec_value_prefix(s, k + 1);
        let t = s.take(k + 1);
        assert(t.drop_last() =~= s.take(k));
        assert(dec_value(t) == 10 * dec_value(s.take(k)) + (t.last() - 48));
        assert(dec_value(s.take(k)) <= 10 * dec_value(s.take(k)));
    } else {
        assert(s.take(k) =~= s);
    }
}

/// Powers of ten, for digit-count bounds.
pub open spec fn pow10(k: nat) -> nat
    decreases k,
{
    if k == 0 {
        1
    } else {
        10 * pow10((k - 1) as nat)
    }
}

/// If `n < 10^k` then `n` has at most `k` digits.
pub proof fn lemma_dec_nat_len_le(n: nat, k: nat)
    requires
        k >= 1,
        n < pow10(k),
    ensures
        dec_nat(n).len() <= k,
    decreases k,
{
    if n < 10 {
    } else {
        assert(pow10(k) == 10 * pow10((k - 1) as nat));
        assert(n / 10 < pow10((k - 1) as nat)) by (nonlinear_arith)
            requires n < 10 * pow10((k - 1) as nat), n >= 10;
        assert(k - 1 >= 1) by {
            if k == 1 {
                assert(pow10(1nat) == 10);
            }
        }
        lemma_dec_nat_len_le(n / 10, (k - 1) as nat);
    }
}

/// A `u64` value has at most twenty digits.
pub proof fn lemma_dec_u64_len(n: nat)
    requires
        n <= u64::MAX,
    ensures
        dec_nat(n).len() <= 20,
{
    assert(pow10(20) > u64::MAX) by {
        reveal_with_fuel(pow10, 21);
    }
    lemma_dec_nat_len_le(n, 20);
}

/// An `i64` value has at most twenty digits and a sign.
pub proof fn lemma_dec_int_len(i: int)
    requires
        i64::MIN <= i <= i64::MAX,
    ensures
        dec_int(i).len() <= 21,
{
    if i >= 0 {
        lemma_dec_u64_len(i as nat);
    } else {
        lemma_dec_u64_len((-i) as nat);
    }
}

/// Canonical digits of `n`, most significant first.
pub fn u64_dec(n: u64) -> (r: Vec<u8>)
    ensures
        r@ == dec_nat(n as nat),
    decreases n,
{
    if n < 10 {
        let mut v: Vec<u8> = Vec::new();
        v.push(48 + n as u8);
        assert(v@ =~= dec_nat(n as nat));
        v
    } else {
        let mut r = u64_dec(n / 10);
        r.push(48 + (n % 10) as u8);
        assert(r@ =~= dec_nat(n as nat));
        r
    }
}

/// Canonical digits of a signed value, with a `-` sign when negative.
pub fn i64_dec(n: i64) -> (r: Vec<u8>)
    ensures
        r@ == dec_int(n as int),
{
    if n >= 0 {
        u64_dec(n as u64)
    } else {
        let mag: u64 = ((-(n + 1)) as u64) + 1;
        assert(mag as int == -(n as int));
        let mut r: Vec<u8> = Vec::new();
        r.push(45);
        let mut digits = u64_dec(mag);
        r.append(&mut digits);
        assert(r@ =~= dec_int(n as int));
        r
    }
}

/// Unsigned decimal parse, exactly as `u64::from_str` decides it.
pub fn parse_u64(s: &[u8]) -> (r: Option<u64>)
    ensures
        match r {
            Some(v) => u64_str_ok(s@) && v as nat == u64_str_value(s@),
            None => !u64_str_ok(s@),
        },
{
    let mut from: usize = 0;
    if s.len() > 0 && s[0] == 43 {
        from = 1;
    }
    assert(strip_plus(s@) =~= s@.skip(from as int));
    parse_digits(s, from)
}

/// Signed decimal parse, exactly as `i64::from_str` decides it.
pub fn parse_i64(s: &[u8]) -> (r: Option<i64>)
    ensures
        match r {
            Some(v) => i64_str_ok(s@) && v as int == int_str_value(s@),
            None => !i64_str_ok(s@),
        },
{
    let ghost d = int_str_digits(s@);
    let mut from: usize = 0;
    let mut negative: bool = false;
    if s.len() > 0 && s[0] == 45 {
        from = 1;
        negative = true;
    } else if s.len() > 0 && s[0] == 43 {
        from = 1;
    }
    assert(d =~= s@.skip(from as int));
    assert(negative == int_str_negative(s@));
    let mag = match parse_digits(s, from) {
        None => {
            return None;
        },
        Some(m) => m,
    };
    if negative {
        if mag > 9223372036854775808u64 {
            return None;
        }
        if mag == 9223372036854775808u64 {
            Some(i64::MIN)
        } else {
            Some(-(mag as i64))
        }
    } else {
        if mag > i64::MAX as u64 {
            return None;
        }
        Some(mag as i64)
    }
}

/// Decimal parse within the `i32` range, as `i32::from_str` decides it.
pub fn parse_i32(s: &[u8]) -> (r: Option<i32>)
    ensures
        match r {
            Some(v) => i32_str_ok(s@) && v as int == int_str_value(s@),
            None => !i32_str_ok(s@),
        },
{
    match parse_i64(s) {
        None => None,
        Some(v) => {
            if v < i32::MIN as i64 || v > i32::MAX as i64 {
                None
            } else {
                Some(v as i32)
            }
        },
    }
}

/// The digits of `s` from position `from` on, as a `u64`; `None` when a byte
/// is not a digit, there are no digits, or the value exceeds `u64::MAX`.
fn parse_digits(s: &[u8], from: usize) -> (r: Option<u64>)
    requires
        from <= s@.len(),
    ensures
        match r {
            Some(v) => {
                let d = s@.skip(from as int);
                d.len() > 0 && is_digits(d) && dec_value(d) <= u64::MAX && v as nat == dec_value(d)
            },
            None => {
                let d = s@.skip(from as int);
                !(d.len() > 0 && is_digits(d) && dec_value(d) <= u64::MAX)
            },
        },
{
    let ghost d = s@.skip(from as int);
    if from == s.len() {
        return None;
    }
    let mut acc: u64 = 0;
    let mut j: usize = from;
    while j < s.len()
        invariant
            from <= j <= s.len(),
            d =~= s@.skip(from as int),
            is_digits(d.take(j - from)),
            acc as nat == dec_value(d.take(j - from)),
        decreases s.len() - j,
    {
        let b = s[j];
        if b < 48 || b > 57 {
            assert(!is_digits(d)) by {
                assert(d[j - from] == b);
            }
            return None;
        }
        let dig: u64 = (b - 48) as u64;
        assert(d.take(j - from + 1).drop_last() =~= d.take(j - from));
        assert(d.take(j - from + 1).last() == b);
        if acc > u64::MAX / 10 || (acc == u64::MAX / 10 && dig > u64::MAX % 10) {
            assert(10 * (acc as nat) + dig > u64::MAX) by (nonlinear_arith)
                requires
                    acc > u64::MAX / 10 || (acc == u64::MAX / 10 && dig > u64::MAX % 10),
                    dig <= 9;
            proof {
                if is_digits(d) && dec_value(d) <= u64::MAX {
                    lemma_dec_value_prefix(d, j - from + 1);
                }
            }
            return None;
        }
        assert(10 * (acc as nat) + dig <= u64::MAX) by (nonlinear_arith)
            requires
                acc < u64::MAX / 10 || (acc == u64::MAX / 10 && dig <= u64::MAX % 10),
                dig <= 9;
        acc = acc * 10 + dig;
        j = j + 1;
    }
    assert(d.take(j - from) =~= d);
    Some(acc)
}

/// The canonical digits of `n` parse back to `n`, within the `i32` range.
pub proof fn lemma_dec_nat_parse_i32(n: nat)
    requires
        n <= i32::MAX,
    ensures
        i32_str_ok(dec_nat(n)),
        int_str_value(dec_nat(n)) == n,
{
    lemma_dec_nat(n);
    let d = dec_nat(n);
    assert(48 <= d[0] <= 57);
    assert(int_str_digits(d) == d);
    assert(!int_str_negative(d));
}

/// The canonical signed digits of `i` parse back to `i`.
pub proof fn lemma_dec_int_parse(i: int)
    requires
        i64::MIN <= i <= i64::MAX,
    ensures
        i64_str_ok(dec_int(i)),
        int_str_value(dec_int(i)) == i,
{
    if i >= 0 {
        lemma_dec_nat(i as nat);
        let d = dec_int(i);
        assert(48 <= d[0] <= 57);
        assert(int_str_digits(d) == d);
        assert(!int_str_negative(d));
    } else {
        lemma_dec_nat((-i) as nat);
        let d = dec_int(i);
        assert(d[0] == 45);
        assert(int_str_negative(d));
        assert(int_str_digits(d) =~= dec_nat((-i) as nat));
    }
}

/// The line `-1` is a numeral denoting `-1`.
pub proof fn lemma_neg_one_line()
    ensures
        i32_str_ok(seq![45u8, 49u8]),
        int_str_value(seq![45u8, 49u8]) == -1,
{
    let s = seq![45u8, 49u8];
    assert(int_str_negative(s));
    assert(int_str_digits(s) =~= seq![49u8]);
    let one = seq![49u8];
    assert(one.drop_last() =~= Seq::<u8>::empty());
    assert(dec_value(Seq::<u8>::empty()) == 0);
    assert(one.last() == 49);
    assert(dec_value(one) == 1);
    assert(is_digits(one));
}

/// An accepted numeral is ASCII and therefore valid UTF-8.
pub proof fn lemma_numeral_is_utf8(s: Seq<u8>)
    ensures
        u64_str_ok(s) ==> vstd::utf8::valid_utf8(s),
{
    if u64_str_ok(s) {
        let d = strip_plus(s);
        assert forall|i: int| 0 <= i < s.len() implies #[trigger] s[i] < 128 by {
            if s[0] == 43 {
                if i > 0 {
                    assert(s[i] == d[i - 1]);
                    assert(48 <= d[i - 1] <= 57);
                }
            } else {
                assert(s[i] == d[i]);
                assert(48 <= d[i] <= 57);
            }
        }
        crate::strutil::lemma_ascii_valid_utf8(s);
    }
}

/// Same for the signed form: only digits and a leading `-`.
pub proof fn lemma_dec_int_bytes(i: int)
    ensures
        forall|k: int|
            0 <= k < dec_int(i).len() ==> (48 <= #[trigger] dec_int(i)[k] <= 57 || dec_int(i)[k]
                == 45),
{
    if i >= 0 {
        lemma_dec_nat(i as nat);
    } else {
        lemma_dec_nat((-i) as nat);
        assert(forall|k: int|
            1 <= k < dec_int(i).len() ==> #[trigger] dec_int(i)[k] == dec_nat((-i) as nat)[k - 1]);
    }
}

} // verus!
