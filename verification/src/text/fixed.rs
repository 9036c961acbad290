//! Doubles with a fixed number of decimal places.
use vstd::arithmetic::power2::{
    lemma2_to64, lemma_pow2_adds, lemma_pow2_pos, lemma_pow2_strictly_increases, lemma_pow2_unfold,
    pow2,
};
use vstd::arithmetic::div_mod::lemma_fundamental_div_mod;
use vstd::prelude::*;
use vstd::string::*;

use crate::binary64::arith::parts;
use crate::binary64::rounding::{lemma_units_order, two_to};
use crate::binary64::{units, Binary64, INFINITY_MAG};
use crate::text::{decimal_text, digit_char, digit_text, digits, is_numeric, read_back};

verus! {

/// `n / d` rounded to a whole number, to the even one of two equally near.
pub open spec fn rounded_quotient(n: nat, d: nat) -> nat {
    let q = n / d;
    let r = n % d;
    if 2 * r > d || (2 * r == d && q % 2 == 1) {
        q + 1
    } else {
        q
    }
}

/// `n` in decimal, with zeros in front up to `len` digits.
pub open spec fn padded(n: nat, len: nat) -> Seq<char>
    decreases len,
{
    if len == 0 {
        Seq::empty()
    } else {
        padded(n / 10, (len - 1) as nat).push(digit_char(n % 10))
    }
}

/// 10 to the power of `places`.
pub open spec fn ten_to(places: nat) -> nat
    decreases places,
{
    if places == 0 {
        1
    } else {
        10 * ten_to((places - 1) as nat)
    }
}

/// A count of `10^-places` as a decimal fraction.
pub open spec fn fraction(q: nat, places: nat) -> Seq<char> {
    digits(q / ten_to(places)) + "."@ + padded(q % ten_to(places), places)
}

/// `x` with `places` decimal places, rounded to the nearest such number.
pub open spec fn fixed(x: Binary64, places: nat) -> Seq<char> {
    if x.nan() {
        "NaN"@
    } else {
        let sign = if x.negative() {
            "-"@
        } else {
            Seq::empty()
        };
        if x.infinite() {
            sign + "inf"@
        } else {
            sign + fraction(
                rounded_quotient((units(x.mag()) * ten_to(places)) as nat, pow2(1074)),
                places,
            )
        }
    }
}

/// The number that decimal digits make, lowest digit first.
pub open spec fn number(d: Seq<u8>) -> nat
    decreases d.len(),
{
    if d.len() == 0 {
        0
    } else {
        d[0] as nat + 10 * number(d.drop_first())
    }
}

/// Whether all of `d` are decimal digits.
pub open spec fn all_digits(d: Seq<u8>) -> bool {
    forall|i: int| 0 <= i < d.len() ==> (#[trigger] d[i]) < 10
}

/// The digits of twice the number of `d`, plus `carry`.
spec fn doubled(d: Seq<u8>, carry: nat) -> Seq<u8>
    decreases d.len(),
{
    if d.len() == 0 {
        if carry == 0 {
            Seq::empty()
        } else {
            seq![carry as u8]
        }
    } else {
        let t = 2 * (d[0] as nat) + carry;
        seq![(t % 10) as u8] + doubled(d.drop_first(), t / 10)
    }
}

proof fn lemma_doubled(d: Seq<u8>, carry: nat)
    requires
        all_digits(d),
        carry <= 1,
    ensures
        all_digits(doubled(d, carry)),
        number(doubled(d, carry)) == 2 * number(d) + carry,
        d.len() > 0 && d.last() > 0 ==> doubled(d, carry).len() > 0 && doubled(d, carry).last() > 0,
    decreases d.len(),
{
    if d.len() == 0 {
        if carry == 1 {
            let s = seq![1u8];
            assert(s.drop_first() =~= Seq::<u8>::empty());
            assert(number(s.drop_first()) == 0);
            assert(s[0] == 1);
            assert(number(s) == 1);
        }
    } else {
        let t = 2 * (d[0] as nat) + carry;
        let rest = d.drop_first();
        assert(all_digits(rest)) by {
            assert forall|i: int| 0 <= i < rest.len() implies (#[trigger] rest[i]) < 10 by {
                assert(rest[i] == d[i + 1]);
            }
        }
        lemma_doubled(rest, t / 10);
        let tail = doubled(rest, t / 10);
        let all = seq![(t % 10) as u8] + tail;
        assert(all.drop_first() =~= tail);
        assert(all[0] == t % 10);
        assert forall|i: int| 0 <= i < all.len() implies (#[trigger] all[i]) < 10 by {
            if i > 0 {
                assert(all[i] == tail[i - 1]);
            }
        }
        if d.last() > 0 {
            if rest.len() > 0 {
                assert(rest.last() == d.last());
                assert(all.last() == tail.last());
            } else {
                if t / 10 == 0 {
                    assert(tail.len() == 0);
                    assert(all.last() == all[0]);
                } else {
                    assert(tail =~= seq![1u8]);
                    assert(all.last() == 1);
                }
            }
        }
    }
}

/// Doubles the number that `d` holds.
fn double(d: &Vec<u8>) -> (r: Vec<u8>)
    requires
        all_digits(d@),
        d@.len() > 0,
        d@.last() > 0,
    ensures
        all_digits(r@),
        r@.len() > 0,
        r@.last() > 0,
        number(r@) == 2 * number(d@),
{
    let mut r: Vec<u8> = Vec::new();
    let mut carry: u8 = 0;
    let mut i: usize = 0;
    proof {
        assert(d@.skip(0) =~= d@);
        assert(Seq::<u8>::empty() + doubled(d@, 0) =~= doubled(d@, 0));
    }
    while i < d.len()
        invariant
            i <= d@.len(),
            all_digits(d@),
            carry <= 1,
            doubled(d@, 0) == r@ + doubled(d@.skip(i as int), carry as nat),
        decreases d@.len() - i,
    {
        let t: u8 = 2 * d[i] + carry;
        let ghost before = r@;
        proof {
            let s = d@.skip(i as int);
            assert(s[0] == d@[i as int]);
            assert(s.drop_first() =~= d@.skip(i + 1));
        }
        r.push(t % 10);
        carry = t / 10;
        proof {
            let tail = doubled(d@.skip(i + 1), carry as nat);
            assert(before + (seq![(t % 10) as u8] + tail) =~= r@ + tail);
        }
        i = i + 1;
    }
    proof {
        assert(d@.skip(d@.len() as int).len() == 0);
    }
    if carry > 0 {
        r.push(carry);
    }
    proof {
        assert(r@ =~= doubled(d@, 0));
        lemma_doubled(d@, 0);
    }
    r
}

/// The digits of `n`, lowest first.
fn digits_of(n: u64) -> (r: Vec<u8>)
    requires
        n > 0,
    ensures
        all_digits(r@),
        r@.len() > 0,
        r@.last() > 0,
        number(r@) == n,
    decreases n,
{
    let mut r: Vec<u8> = Vec::new();
    r.push((n % 10) as u8);
    if n < 10 {
        proof {
            assert(r@.drop_first() =~= Seq::<u8>::empty());
            assert(number(r@.drop_first()) == 0);
        }
        r
    } else {
        let mut rest: Vec<u8> = digits_of(n / 10);
        let ghost tail = rest@;
        r.append(&mut rest);
        proof {
            assert(r@.drop_first() =~= tail);
            assert(r@[0] == n % 10);
            assert forall|i: int| 0 <= i < r@.len() implies (#[trigger] r@[i]) < 10 by {
                if i > 0 {
                    assert(r@[i] == tail[i - 1]);
                }
            }
            assert(r@.last() == tail.last());
        }
        r
    }
}

/// A number with a digit other than zero in front is not zero.
proof fn lemma_number_positive(d: Seq<u8>)
    requires
        d.len() > 0,
        d.last() > 0,
    ensures
        number(d) > 0,
    decreases d.len(),
{
    if d.len() > 1 {
        assert(d.drop_first().last() == d.last());
        lemma_number_positive(d.drop_first());
    }
}

/// The text of the number that `d` holds.
fn digits_text(d: &Vec<u8>) -> (r: String)
    requires
        all_digits(d@),
        d@.len() > 0,
        d@.last() > 0,
    ensures
        r@ == digits(number(d@)),
{
    let mut i: usize = d.len() - 1;
    proof {
        let s = d@.skip(i as int);
        assert(s.drop_first() =~= Seq::<u8>::empty());
        assert(s[0] == d@.last());
        assert(number(s.drop_first()) == 0);
    }
    let mut r: String = digit_text(d[i] as u64).to_owned();
    while i > 0
        invariant
            i < d@.len(),
            all_digits(d@),
            d@.last() > 0,
            r@ == digits(number(d@.skip(i as int))),
        decreases i,
    {
        i = i - 1;
        let ghost before = r@;
        r.append(digit_text(d[i] as u64));
        proof {
            let s = d@.skip(i as int);
            let rest = d@.skip(i + 1);
            assert(s.drop_first() =~= rest);
            assert(s[0] == d@[i as int]);
            assert(rest.last() == d@.last());
            lemma_number_positive(rest);
            assert(number(s) / 10 == number(rest));
            assert(number(s) % 10 == d@[i as int]);
            assert(r@ =~= before.push(digit_char(d@[i as int] as nat)));
        }
    }
    proof {
        assert(d@.skip(0) =~= d@);
    }
    r
}

/// `n` in decimal, with zeros in front up to `len` digits.
fn padded_text(n: u64, len: u32) -> (r: String)
    ensures
        r@ == padded(n as nat, len as nat),
    decreases len,
{
    if len == 0 {
        String::new()
    } else {
        let mut r: String = padded_text(n / 10, len - 1);
        r.append(digit_text(n % 10));
        proof {
            assert(padded((n / 10) as nat, (len - 1) as nat) + seq![digit_char((n % 10) as nat)]
                =~= padded(n as nat, len as nat));
        }
        r
    }
}

proof fn lemma_padded_len(n: nat, len: nat)
    ensures
        padded(n, len).len() == len,
    decreases len,
{
    if len > 0 {
        lemma_padded_len(n / 10, (len - 1) as nat);
    }
}

/// The size of a finite magnitude with up to three decimal places.
fn magnitude_text(mag: u64, places: u32) -> (r: String)
    requires
        mag < INFINITY_MAG,
        1 <= places <= 3,
    ensures
        r@ == fraction(
            rounded_quotient(
                (units(mag as int) * ten_to(places as nat)) as nat,
                pow2(1074),
            ),
            places as nat,
        ),
{
    let (sig, exp) = parts(mag);
    let ghost u = units(mag as int);
    let ghost c = pow2(1074);
    let mut scale: u64 = 1;
    let mut k: u32 = 0;
    while k < places
        invariant
            k <= places <= 3,
            scale == ten_to(k as nat),
            k == 0 ==> scale == 1,
            k == 1 ==> scale == 10,
            k == 2 ==> scale == 100,
            k == 3 ==> scale == 1000,
        decreases places - k,
    {
        scale = scale * 10;
        k = k + 1;
    }
    proof {
        lemma_pow2_pos(1074);
        lemma_pow2_pos(exp as nat);
    }
    if exp >= 1074 {
        // A whole number of `sig` times a power of two.
        proof {
            lemma_pow2_adds((exp - 1074) as nat, 1074);
        }
        let mut d: Vec<u8> = digits_of(sig);
        let mut e: u32 = 1074;
        proof {
            assert(pow2(0) == 1) by {
                lemma2_to64();
            }
            assert(number(d@) == sig * pow2(0)) by (nonlinear_arith)
                requires
                    number(d@) == sig,
                    pow2(0) == 1,
            ;
        }
        while e < exp
            invariant
                1074 <= e <= exp,
                all_digits(d@),
                d@.len() > 0,
                d@.last() > 0,
                number(d@) == sig * pow2((e - 1074) as nat),
            decreases exp - e,
        {
            d = double(&d);
            proof {
                lemma_pow2_unfold((e + 1 - 1074) as nat);
                assert(sig * pow2((e + 1 - 1074) as nat) == 2 * (sig * pow2((e - 1074) as nat)))
                    by (nonlinear_arith)
                    requires
                        pow2((e + 1 - 1074) as nat) == 2 * pow2((e - 1074) as nat),
                ;
            }
            e = e + 1;
        }
        let mut r: String = digits_text(&d);
        r.append(".");
        r.append(padded_text(0, places).as_str());
        proof {
            let v = number(d@);
            assert(u == v * c) by (nonlinear_arith)
                requires
                    u == sig * pow2(exp as nat),
                    pow2(exp as nat) == pow2((exp - 1074) as nat) * c,
                    v == sig * pow2((exp - 1074) as nat),
            ;
            assert(u * scale == c * (v * scale)) by (nonlinear_arith)
                requires
                    u == v * c,
            ;
            let n = (u * scale) as nat;
            vstd::arithmetic::div_mod::lemma_div_multiples_vanish((v * scale) as int, c as int);
            vstd::arithmetic::div_mod::lemma_mod_multiples_basic((v * scale) as int, c as int);
            assert(c * (v * scale) == (v * scale) * c) by (nonlinear_arith);
            assert(n / c == v * scale);
            assert(n % c == 0);
            assert(rounded_quotient(n, c) == v * scale);
            vstd::arithmetic::div_mod::lemma_div_multiples_vanish(v as int, scale as int);
            vstd::arithmetic::div_mod::lemma_mod_multiples_basic(v as int, scale as int);
            assert(v * scale == scale * v) by (nonlinear_arith);
            assert((v * scale) as nat / (scale as nat) == v);
            assert((v * scale) as nat % (scale as nat) == 0);
        }
        return r;
    }
    let shift: u32 = 1074 - exp;
    let n: u64 = sig * scale;
    proof {
        lemma_pow2_adds(exp as nat, shift as nat);
        lemma_pow2_pos(shift as nat);
        assert(u * scale == n * pow2(exp as nat)) by (nonlinear_arith)
            requires
                u == sig * pow2(exp as nat),
                n == sig * scale,
        ;
    }
    let q: u64 = if shift > 64 {
        proof {
            lemma2_to64();
            lemma_pow2_strictly_increases(64, shift as nat);
        }
        0
    } else {
        proof {
            lemma2_to64();
            if shift < 64 {
                lemma_pow2_strictly_increases(shift as nat, 64);
            }
        }
        let w: u128 = two_to(shift);
        let quot: u128 = n as u128 / w;
        let rest: u128 = n as u128 % w;
        assert(quot <= n) by (nonlinear_arith)
            requires
                quot == n as u128 / w,
                w >= 1,
        ;
        if 2 * rest > w || (2 * rest == w && quot % 2 == 1) {
            quot as u64 + 1
        } else {
            quot as u64
        }
    };
    proof {
        lemma_scaled_quotient(n as nat, pow2(shift as nat), pow2(exp as nat));
        assert(pow2(exp as nat) * pow2(shift as nat) == pow2(shift as nat) * pow2(exp as nat))
            by (nonlinear_arith);
        if shift > 64 {
            let w = pow2(shift as nat);
            assert(n < w);
            vstd::arithmetic::div_mod::lemma_small_mod(n as nat, w);
            vstd::arithmetic::div_mod::lemma_basic_div(n as int, w as int);
        }
        assert(q == rounded_quotient(n as nat, pow2(shift as nat)));
        assert((u * scale) as nat == n as nat * pow2(exp as nat));
    }
    let mut r: String = decimal_text(q / scale);
    r.append(".");
    r.append(padded_text(q % scale, places).as_str());
    r
}

/// Scaling both sides leaves a rounded quotient as it is.
proof fn lemma_scaled_quotient(n: nat, d: nat, k: nat)
    requires
        d > 0,
        k > 0,
    ensures
        rounded_quotient(n * k, d * k) == rounded_quotient(n, d),
        d * k > 0,
{
    let q = n / d;
    let r = n % d;
    vstd::arithmetic::div_mod::lemma_fundamental_div_mod(n as int, d as int);
    assert(n * k == (d * k) * q + r * k) by (nonlinear_arith)
        requires
            n == d * q + r,
    ;
    assert(r * k < d * k) by (nonlinear_arith)
        requires
            r < d,
            k > 0,
    ;
    assert(d * k > 0) by (nonlinear_arith)
        requires
            d > 0,
            k > 0,
    ;
    assert(r * k >= 0) by (nonlinear_arith);
    assert(n * k == q * (d * k) + r * k) by (nonlinear_arith)
        requires
            n * k == (d * k) * q + r * k,
    ;
    vstd::arithmetic::div_mod::lemma_fundamental_div_mod_converse(
        (n * k) as int,
        (d * k) as int,
        q as int,
        (r * k) as int,
    );
    assert(2 * (r * k) > d * k <==> 2 * r > d) by (nonlinear_arith)
        requires
            k > 0,
    ;
    assert(2 * (r * k) == d * k <==> 2 * r == d) by (nonlinear_arith)
        requires
            k > 0,
    ;
}

/// `x` with up to three decimal places, rounded to the nearest such number.
pub fn fixed_text(x: Binary64, places: u32) -> (r: String)
    requires
        1 <= places <= 3,
    ensures
        r@ == fixed(x, places as nat),
{
    if x.is_nan() {
        return "NaN".to_owned();
    }
    let size: String = if x.is_finite() {
        magnitude_text(x.magnitude(), places)
    } else {
        "inf".to_owned()
    };
    if x.is_sign_negative() {
        let mut r: String = "-".to_owned();
        r.append(size.as_str());
        r
    } else {
        proof {
            assert(Seq::<char>::empty() + size@ =~= size@);
        }
        size
    }
}

/// What a double is written as: with `q` the whole number nearest to it in counts of
/// `10^-places`, the whole part of `q` counts, a point, and the rest in `places` digits; a
/// minus sign in front of a negative number. No other whole number is nearer than `q`.
pub proof fn law_written_number_is_the_nearest(x: Binary64, places: nat) -> (q: nat)
    requires
        x.finite(),
    ensures
        ({
            let exact = units(x.mag()) * ten_to(places);
            let body = digits(q / ten_to(places)) + "."@ + padded(q % ten_to(places), places);
            &&& 2 * (q * pow2(1074) - exact) <= pow2(1074)
            &&& 2 * (exact - q * pow2(1074)) <= pow2(1074)
            &&& x.negative() ==> fixed(x, places) == "-"@ + body
            &&& !x.negative() ==> fixed(x, places) == body
        }),
{
    let n = (units(x.mag()) * ten_to(places)) as nat;
    let d = pow2(1074);
    lemma_pow2_pos(1074);
    lemma_units_order(0, x.mag());
    lemma_ten_to_pos(places);
    assert(units(x.mag()) * ten_to(places) >= 0) by (nonlinear_arith)
        requires
            units(x.mag()) >= 0,
            ten_to(places) >= 0,
    ;
    let q = rounded_quotient(n, d);
    let k = n / d;
    lemma_fundamental_div_mod(n as int, d as int);
    assert((k + 1) * d == k * d + d) by (nonlinear_arith);
    assert(d * (n / d) == k * d) by (nonlinear_arith)
        requires
            k == n / d,
    ;
    assert(Seq::<char>::empty() + fraction(q, places) =~= fraction(q, places));
    q
}

proof fn lemma_ten_to_pos(places: nat)
    ensures
        ten_to(places) > 0,
    decreases places,
{
    if places > 0 {
        lemma_ten_to_pos((places - 1) as nat);
    }
}

/// The digits behind the point are as many as asked for, and stand for the number that they
/// are written for.
pub proof fn law_places_are_read_back(n: nat, len: nat)
    requires
        n < ten_to(len),
    ensures
        padded(n, len).len() == len,
        is_numeric(padded(n, len)),
        read_back(padded(n, len)) == n,
    decreases len,
{
    if len > 0 {
        law_places_are_read_back(n / 10, (len - 1) as nat);
        assert(padded(n, len).drop_last() =~= padded(n / 10, (len - 1) as nat));
    }
}

/// Powers of ten, as they are used: one place is tenths, three are thousandths.
pub proof fn law_powers_of_ten(places: nat)
    ensures
        ten_to(0) == 1,
        ten_to(places + 1) == 10 * ten_to(places),
{
}

/// What is no number is said to be none, and infinity is told by its sign.
pub proof fn law_special_numbers_are_named(x: Binary64, places: nat)
    ensures
        x.nan() ==> fixed(x, places) == "NaN"@,
        x.infinite() && x.negative() ==> fixed(x, places) == "-"@ + "inf"@,
        x.infinite() && !x.negative() ==> fixed(x, places) == "inf"@,
{
    assert(Seq::<char>::empty() + "inf"@ =~= "inf"@);
}

} // verus!
