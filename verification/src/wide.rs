use vstd::prelude::*;

use crate::oriented_box::OrientedBoxError3d;

verus! {

/// The radix of one 64-bit limb.
pub open spec fn limb_radix() -> int {
    0x1_0000_0000_0000_0000
}

/// `limb_radix()^n`: the place value of limb `n`.
pub open spec fn place(n: nat) -> int
    decreases n,
{
    if n == 0 {
        1
    } else {
        limb_radix() * place((n - 1) as nat)
    }
}

/// The value of little-endian 64-bit limbs.
pub open spec fn limbs_value(limbs: Seq<u64>) -> int
    decreases limbs.len(),
{
    if limbs.len() == 0 {
        0
    } else {
        limbs_value(limbs.drop_last()) + limbs.last() * place((limbs.len() - 1) as nat)
    }
}

/// The value of big-endian 64-bit limbs.
pub open spec fn big_endian_value(limbs: Seq<u64>) -> int {
    limbs_value(limbs.reverse())
}

proof fn lemma_place_positive(n: nat)
    ensures
        place(n) >= 1,
    decreases n,
{
    if n > 0 {
        lemma_place_positive((n - 1) as nat);
        assert(limb_radix() * place((n - 1) as nat) >= 1) by (nonlinear_arith)
            requires
                place((n - 1) as nat) >= 1,
        ;
    }
}

proof fn lemma_take_step(limbs: Seq<u64>, i: int)
    requires
        0 <= i < limbs.len(),
    ensures
        limbs_value(limbs.take(i + 1)) == limbs_value(limbs.take(i)) + limbs[i] * place(i as nat),
{
    assert(limbs.take(i + 1).drop_last() =~= limbs.take(i));
}

proof fn lemma_value_bounds(limbs: Seq<u64>)
    ensures
        0 <= limbs_value(limbs) < place(limbs.len()),
    decreases limbs.len(),
{
    if limbs.len() > 0 {
        let n = (limbs.len() - 1) as nat;
        lemma_value_bounds(limbs.drop_last());
        lemma_place_positive(n);
        let rest = limbs_value(limbs.drop_last());
        let last = limbs.last() as int;
        assert(0 <= rest + last * place(n) < limb_radix() * place(n)) by (nonlinear_arith)
            requires
                0 <= rest < place(n),
                0 <= last < limb_radix(),
                place(n) >= 1,
        ;
    }
}

proof fn lemma_value_zero(limbs: Seq<u64>)
    ensures
        limbs_value(limbs) == 0 <==> forall|i: int| 0 <= i < limbs.len() ==> limbs[i] == 0,
    decreases limbs.len(),
{
    if limbs.len() > 0 {
        let n = (limbs.len() - 1) as nat;
        lemma_value_zero(limbs.drop_last());
        lemma_value_bounds(limbs.drop_last());
        lemma_place_positive(n);
        let rest = limbs_value(limbs.drop_last());
        let last = limbs.last() as int;
        assert(rest + last * place(n) == 0 <==> rest == 0 && last == 0) by (nonlinear_arith)
            requires
                0 <= rest,
                0 <= last,
                place(n) >= 1,
        ;
        if limbs_value(limbs) == 0 {
            assert forall|i: int| 0 <= i < limbs.len() implies limbs[i] == 0 by {
                if i < limbs.len() - 1 {
                    assert(limbs.drop_last()[i] == limbs[i]);
                }
            }
        }
        if forall|i: int| 0 <= i < limbs.len() ==> limbs[i] == 0 {
            assert forall|i: int| 0 <= i < limbs.drop_last().len() implies limbs.drop_last()[i]
                == 0 by {
                assert(limbs[i] == 0);
            }
        }
    }
}

proof fn lemma_mul_step(
    prefix: int,
    carry: int,
    a_prefix: int,
    a_i: int,
    factor: int,
    p: int,
    total: int,
    low: int,
    high: int,
)
    requires
        prefix + carry * p == a_prefix * factor,
        total == a_i * factor + carry,
        total == high * limb_radix() + low,
    ensures
        (prefix + low * p) + high * (limb_radix() * p) == (a_prefix + a_i * p) * factor,
{
    assert((prefix + low * p) + high * (limb_radix() * p) == (a_prefix + a_i * p) * factor)
        by (nonlinear_arith)
        requires
            prefix + carry * p == a_prefix * factor,
            total == a_i * factor + carry,
            total == high * limb_radix() + low,
    ;
}

/// `limbs * factor` for a single-limb factor: the low six limbs and the carried-out limb.
fn multiply_limb(limbs: [u64; 6], factor: u64) -> (result: ([u64; 6], u64))
    ensures
        limbs_value(result.0@) + result.1 * place(6) == limbs_value(limbs@) * factor,
{
    let mut out: [u64; 6] = [0u64; 6];
    let mut carry: u64 = 0;
    let mut i: usize = 0;
    assert(limbs@.take(0) =~= Seq::<u64>::empty());
    assert(out@.take(0) =~= Seq::<u64>::empty());
    while i < 6
        invariant
            0 <= i <= 6,
            limbs_value(out@.take(i as int)) + carry * place(i as nat) == limbs_value(
                limbs@.take(i as int),
            ) * factor,
        decreases 6 - i,
    {
        let a_i = limbs[i];
        assert(a_i * factor + carry <= 0xffff_ffff_ffff_ffffint * 0xffff_ffff_ffff_ffffint
            + 0xffff_ffff_ffff_ffffint) by (nonlinear_arith)
            requires
                a_i <= 0xffff_ffff_ffff_ffffint,
                factor <= 0xffff_ffff_ffff_ffffint,
                carry <= 0xffff_ffff_ffff_ffffint,
        ;
        let total: u128 = (a_i as u128) * (factor as u128) + (carry as u128);
        let low = (total % 0x1_0000_0000_0000_0000u128) as u64;
        let high = (total / 0x1_0000_0000_0000_0000u128) as u64;
        let ghost previous = out@;
        out[i] = low;
        proof {
            assert(out@.take(i as int) =~= previous.take(i as int));
            lemma_take_step(out@, i as int);
            lemma_take_step(limbs@, i as int);
            lemma_mul_step(
                limbs_value(previous.take(i as int)),
                carry as int,
                limbs_value(limbs@.take(i as int)),
                a_i as int,
                factor as int,
                place(i as nat),
                total as int,
                low as int,
                high as int,
            );
        }
        carry = high;
        i = i + 1;
    }
    assert(out@.take(6) =~= out@);
    assert(limbs@.take(6) =~= limbs@);
    (out, carry)
}

/// `left + right` over six limbs: the low six limbs and the carry bit.
fn add_limbs(left: [u64; 6], right: [u64; 6]) -> (result: ([u64; 6], u64))
    ensures
        limbs_value(result.0@) + result.1 * place(6) == limbs_value(left@) + limbs_value(right@),
        result.1 <= 1,
{
    let mut out: [u64; 6] = [0u64; 6];
    let mut carry: u64 = 0;
    let mut i: usize = 0;
    assert(left@.take(0) =~= Seq::<u64>::empty());
    assert(right@.take(0) =~= Seq::<u64>::empty());
    assert(out@.take(0) =~= Seq::<u64>::empty());
    while i < 6
        invariant
            0 <= i <= 6,
            carry <= 1,
            limbs_value(out@.take(i as int)) + carry * place(i as nat) == limbs_value(
                left@.take(i as int),
            ) + limbs_value(right@.take(i as int)),
        decreases 6 - i,
    {
        let total: u128 = (left[i] as u128) + (right[i] as u128) + (carry as u128);
        let low = (total % 0x1_0000_0000_0000_0000u128) as u64;
        let high = (total / 0x1_0000_0000_0000_0000u128) as u64;
        let ghost previous = out@;
        out[i] = low;
        proof {
            assert(out@.take(i as int) =~= previous.take(i as int));
            lemma_take_step(out@, i as int);
            lemma_take_step(left@, i as int);
            lemma_take_step(right@, i as int);
            let p = place(i as nat);
            assert((limbs_value(previous.take(i as int)) + low * p) + high * (limb_radix() * p)
                == limbs_value(left@.take(i as int)) + left[i as int] * p + limbs_value(
                right@.take(i as int),
            ) + right[i as int] * p) by (nonlinear_arith)
                requires
                    limbs_value(previous.take(i as int)) + carry * p == limbs_value(
                        left@.take(i as int),
                    ) + limbs_value(right@.take(i as int)),
                    total == left[i as int] + right[i as int] + carry,
                    total == high * limb_radix() + low,
            ;
        }
        carry = high;
        i = i + 1;
    }
    assert(out@.take(6) =~= out@);
    assert(left@.take(6) =~= left@);
    assert(right@.take(6) =~= right@);
    (out, carry)
}

proof fn lemma_low_limb_value(limbs: Seq<u64>)
    requires
        limbs.len() >= 1,
        forall|i: int| 1 <= i < limbs.len() ==> limbs[i] == 0,
    ensures
        limbs_value(limbs) == limbs[0],
    decreases limbs.len(),
{
    if limbs.len() == 1 {
        assert(limbs.drop_last() =~= Seq::<u64>::empty());
        assert(limbs_value(limbs.drop_last()) == 0);
        assert(place(0) == 1);
        assert(limbs_value(limbs) == limbs_value(limbs.drop_last()) + limbs.last() * place(0));
    } else {
        let rest = limbs.drop_last();
        assert forall|i: int| 1 <= i < rest.len() implies rest[i] == 0 by {
            assert(rest[i] == limbs[i]);
        }
        lemma_low_limb_value(rest);
        assert(limbs.last() == 0);
        assert(rest[0] == limbs[0]);
        assert(limbs_value(limbs) == limbs_value(rest) + limbs.last() * place(
            (limbs.len() - 1) as nat,
        ));
    }
}

proof fn lemma_expand_six(limbs: Seq<u64>)
    requires
        limbs.len() == 6,
    ensures
        limbs_value(limbs) == limbs[0] + limbs[1] * limb_radix() + limbs[2] * (limb_radix()
            * limb_radix()) + limbs[3] * (limb_radix() * (limb_radix() * limb_radix())) + limbs[4]
            * (limb_radix() * (limb_radix() * (limb_radix() * limb_radix()))) + limbs[5] * (
        limb_radix() * (limb_radix() * (limb_radix() * (limb_radix() * limb_radix())))),
{
    reveal_with_fuel(place, 6);
    assert(limbs.take(0) =~= Seq::<u64>::empty());
    lemma_take_step(limbs, 0);
    lemma_take_step(limbs, 1);
    lemma_take_step(limbs, 2);
    lemma_take_step(limbs, 3);
    lemma_take_step(limbs, 4);
    lemma_take_step(limbs, 5);
    assert(limbs.take(6) =~= limbs);
}

proof fn lemma_shift_one_limb(limbs: Seq<u64>, shifted: Seq<u64>)
    requires
        limbs.len() == 6,
        shifted.len() == 6,
        shifted[0] == 0,
        forall|i: int| 1 <= i < 6 ==> shifted[i] == limbs[i - 1],
    ensures
        limbs_value(shifted) + limbs[5] * place(6) == limb_radix() * limbs_value(limbs),
{
    reveal_with_fuel(place, 7);
    lemma_expand_six(limbs);
    lemma_expand_six(shifted);
    let b = limb_radix();
    assert(shifted[1] == limbs[0] && shifted[2] == limbs[1] && shifted[3] == limbs[2]
        && shifted[4] == limbs[3] && shifted[5] == limbs[4]);
    assert(limbs_value(shifted) + limbs[5] * place(6) == b * limbs_value(limbs)) by (
    nonlinear_arith)
        requires
            limbs_value(shifted) == shifted[0] + shifted[1] * b + shifted[2] * (b * b) + shifted[3]
                * (b * (b * b)) + shifted[4] * (b * (b * (b * b))) + shifted[5] * (b * (b * (b * (b
                * b)))),
            limbs_value(limbs) == limbs[0] + limbs[1] * b + limbs[2] * (b * b) + limbs[3] * (b * (b
                * b)) + limbs[4] * (b * (b * (b * b))) + limbs[5] * (b * (b * (b * (b * b)))),
            place(6) == b * (b * (b * (b * (b * b)))),
            shifted[0] == 0,
            shifted[1] == limbs[0],
            shifted[2] == limbs[1],
            shifted[3] == limbs[2],
            shifted[4] == limbs[3],
            shifted[5] == limbs[4],
    ;
}

/// Multiplies a six-limb number by a 128-bit factor, failing when the product needs more than
/// six limbs.
fn multiply_wide(limbs: [u64; 6], factor: u128) -> (result: Result<[u64; 6], OrientedBoxError3d>)
    ensures
        match result {
            Ok(product) => limbs_value(product@) == limbs_value(limbs@) * factor,
            Err(e) => e == OrientedBoxError3d::ArithmeticOverflow && limbs_value(limbs@) * factor
                >= place(6),
        },
{
    let low_factor = (factor % 0x1_0000_0000_0000_0000u128) as u64;
    let high_factor = (factor / 0x1_0000_0000_0000_0000u128) as u64;
    let (low_product, low_carry) = multiply_limb(limbs, low_factor);
    let (high_product, high_carry) = multiply_limb(limbs, high_factor);
    let shifted: [u64; 6] = [
        0,
        high_product[0],
        high_product[1],
        high_product[2],
        high_product[3],
        high_product[4],
    ];
    let (sum, sum_carry) = add_limbs(low_product, shifted);
    proof {
        lemma_shift_one_limb(high_product@, shifted@);
        lemma_value_bounds(sum@);
        lemma_value_bounds(limbs@);
        lemma_place_positive(6);
        let b = limb_radix();
        let v = limbs_value(limbs@);
        let extra = sum_carry + low_carry + high_product[5] + high_carry * b;
        let p = place(6);
        let lp = limbs_value(low_product@);
        let hp = limbs_value(high_product@);
        let sh = limbs_value(shifted@);
        assert(v * factor == (v * high_factor) * b + v * low_factor) by (nonlinear_arith)
            requires
                factor == high_factor * b + low_factor,
        ;
        assert((v * high_factor) * b == hp * b + (high_carry * b) * p) by (nonlinear_arith)
            requires
                hp + high_carry * p == v * high_factor,
        ;
        assert(hp * b == b * hp) by (nonlinear_arith);
        assert(extra * p == sum_carry * p + low_carry * p + high_product[5] * p + (high_carry * b)
            * p) by (nonlinear_arith)
            requires
                extra == sum_carry + low_carry + high_product[5] + high_carry * b,
        ;
        assert(v * factor == limbs_value(sum@) + extra * p);
        assert(extra == 0 <==> limbs_value(limbs@) * factor < place(6)) by (nonlinear_arith)
            requires
                v * factor == limbs_value(sum@) + extra * place(6),
                0 <= limbs_value(sum@) < place(6),
                extra >= 0,
                place(6) >= 1,
                v == limbs_value(limbs@),
        ;
    }
    if sum_carry != 0 || low_carry != 0 || high_product[5] != 0 || high_carry != 0 {
        return Err(OrientedBoxError3d::ArithmeticOverflow);
    }
    Ok(sum)
}

proof fn lemma_reverse_value(limbs: Seq<u64>, reversed: Seq<u64>)
    requires
        limbs.len() == 6,
        reversed.len() == 6,
        forall|i: int| 0 <= i < 6 ==> reversed[i] == limbs[5 - i],
    ensures
        big_endian_value(reversed) == limbs_value(limbs),
{
    assert(reversed.reverse() =~= limbs);
}

/// The exact product of three 128-bit factors as six big-endian 64-bit limbs.
pub fn wide_product(factors: [u128; 3]) -> (result: Result<[u64; 6], OrientedBoxError3d>)
    ensures
        match result {
            Ok(limbs) => big_endian_value(limbs@) == factors[0] * factors[1] * factors[2],
            Err(_) => false,
        },
{
    let one: [u64; 6] = [1, 0, 0, 0, 0, 0];
    proof {
        assert(one@[0] == 1 && one@[1] == 0 && one@[2] == 0 && one@[3] == 0 && one@[4] == 0
            && one@[5] == 0);
        lemma_low_limb_value(one@);
        assert(limbs_value(one@) == 1);
        reveal_with_fuel(place, 7);
        assert(factors[0] * factors[1] * factors[2] < place(6)) by (nonlinear_arith)
            requires
                0 <= factors[0] < 0x1_0000_0000_0000_0000_0000_0000_0000_0000int,
                0 <= factors[1] < 0x1_0000_0000_0000_0000_0000_0000_0000_0000int,
                0 <= factors[2] < 0x1_0000_0000_0000_0000_0000_0000_0000_0000int,
                place(6) == limb_radix() * (limb_radix() * (limb_radix() * (limb_radix() * (
                limb_radix() * limb_radix())))),
        ;
        assert(factors[0] * factors[1] < place(6)) by (nonlinear_arith)
            requires
                0 <= factors[0] < 0x1_0000_0000_0000_0000_0000_0000_0000_0000int,
                0 <= factors[1] < 0x1_0000_0000_0000_0000_0000_0000_0000_0000int,
                place(6) == limb_radix() * (limb_radix() * (limb_radix() * (limb_radix() * (
                limb_radix() * limb_radix())))),
        ;
    }
    let first = match multiply_wide(one, factors[0]) {
        Ok(product) => product,
        Err(e) => return Err(e),
    };
    let second = match multiply_wide(first, factors[1]) {
        Ok(product) => product,
        Err(e) => return Err(e),
    };
    let third = match multiply_wide(second, factors[2]) {
        Ok(product) => product,
        Err(e) => return Err(e),
    };
    let reversed: [u64; 6] = [third[5], third[4], third[3], third[2], third[1], third[0]];
    proof {
        lemma_reverse_value(third@, reversed@);
        assert(limbs_value(first@) == factors[0]);
        assert(limbs_value(third@) == factors[0] * factors[1] * factors[2]) by (nonlinear_arith)
            requires
                limbs_value(first@) == factors[0],
                limbs_value(second@) == limbs_value(first@) * factors[1],
                limbs_value(third@) == limbs_value(second@) * factors[2],
        ;
    }
    Ok(reversed)
}

/// Three-way comparison of two exact integers.
#[derive(Clone, Copy, Debug, PartialEq, Eq, Structural)]
pub enum RatioOrder {
    Less,
    Equal,
    Greater,
}

/// The three-way order of `left` against `right`.
pub open spec fn order_of(left: int, right: int) -> RatioOrder {
    if left < right {
        RatioOrder::Less
    } else if left == right {
        RatioOrder::Equal
    } else {
        RatioOrder::Greater
    }
}

/// Compares two six-limb little-endian numbers by subtraction with borrow.
fn compare_limbs(left: [u64; 6], right: [u64; 6]) -> (order: RatioOrder)
    ensures
        order == order_of(limbs_value(left@), limbs_value(right@)),
{
    let mut out: [u64; 6] = [0u64; 6];
    let mut borrow: u64 = 0;
    let mut i: usize = 0;
    assert(left@.take(0) =~= Seq::<u64>::empty());
    assert(right@.take(0) =~= Seq::<u64>::empty());
    assert(out@.take(0) =~= Seq::<u64>::empty());
    while i < 6
        invariant
            0 <= i <= 6,
            borrow <= 1,
            limbs_value(out@.take(i as int)) - borrow * place(i as nat) == limbs_value(
                left@.take(i as int),
            ) - limbs_value(right@.take(i as int)),
        decreases 6 - i,
    {
        let minuend = left[i] as u128;
        let subtrahend = (right[i] as u128) + (borrow as u128);
        let (digit, next_borrow): (u64, u64) = if minuend >= subtrahend {
            ((minuend - subtrahend) as u64, 0)
        } else {
            ((minuend + 0x1_0000_0000_0000_0000u128 - subtrahend) as u64, 1)
        };
        let ghost previous = out@;
        out[i] = digit;
        proof {
            assert(out@.take(i as int) =~= previous.take(i as int));
            lemma_take_step(out@, i as int);
            lemma_take_step(left@, i as int);
            lemma_take_step(right@, i as int);
            let p = place(i as nat);
            assert((limbs_value(previous.take(i as int)) + digit * p) - next_borrow * (limb_radix()
                * p) == limbs_value(left@.take(i as int)) + left[i as int] * p - (limbs_value(
                right@.take(i as int),
            ) + right[i as int] * p)) by (nonlinear_arith)
                requires
                    limbs_value(previous.take(i as int)) - borrow * p == limbs_value(
                        left@.take(i as int),
                    ) - limbs_value(right@.take(i as int)),
                    digit - next_borrow * limb_radix() == left[i as int] - right[i as int]
                        - borrow,
            ;
        }
        borrow = next_borrow;
        i = i + 1;
    }
    assert(out@.take(6) =~= out@);
    assert(left@.take(6) =~= left@);
    assert(right@.take(6) =~= right@);
    proof {
        lemma_value_bounds(out@);
        lemma_value_zero(out@);
    }
    if borrow != 0 {
        return RatioOrder::Less;
    }
    let mut j: usize = 0;
    while j < 6
        invariant
            0 <= j <= 6,
            borrow == 0,
            limbs_value(out@) == limbs_value(left@) - limbs_value(right@),
            limbs_value(out@) >= 0,
            limbs_value(out@) == 0 <==> forall|i: int| 0 <= i < 6 ==> out@[i] == 0,
            forall|k: int| 0 <= k < j ==> out@[k] == 0,
        decreases 6 - j,
    {
        if out[j] != 0 {
            return RatioOrder::Greater;
        }
        j = j + 1;
    }
    RatioOrder::Equal
}

fn product_limbs(first: u128, second: u128, third: u128) -> (limbs: [u64; 6])
    ensures
        limbs_value(limbs@) == first * second * third,
{
    let one: [u64; 6] = [1, 0, 0, 0, 0, 0];
    proof {
        assert(one@[0] == 1 && one@[1] == 0 && one@[2] == 0 && one@[3] == 0 && one@[4] == 0
            && one@[5] == 0);
        lemma_low_limb_value(one@);
        assert(limbs_value(one@) == 1);
        reveal_with_fuel(place, 7);
        assert(first * second * third < place(6)) by (nonlinear_arith)
            requires
                0 <= first < 0x1_0000_0000_0000_0000_0000_0000_0000_0000int,
                0 <= second < 0x1_0000_0000_0000_0000_0000_0000_0000_0000int,
                0 <= third < 0x1_0000_0000_0000_0000_0000_0000_0000_0000int,
                place(6) == limb_radix() * (limb_radix() * (limb_radix() * (limb_radix() * (
                limb_radix() * limb_radix())))),
        ;
        assert(first * second < place(6)) by (nonlinear_arith)
            requires
                0 <= first < 0x1_0000_0000_0000_0000_0000_0000_0000_0000int,
                0 <= second < 0x1_0000_0000_0000_0000_0000_0000_0000_0000int,
                place(6) == limb_radix() * (limb_radix() * (limb_radix() * (limb_radix() * (
                limb_radix() * limb_radix())))),
        ;
    }
    let a = match multiply_wide(one, first) {
        Ok(product) => product,
        Err(_) => one,
    };
    let b = match multiply_wide(a, second) {
        Ok(product) => product,
        Err(_) => one,
    };
    match multiply_wide(b, third) {
        Ok(product) => product,
        Err(_) => one,
    }
}

/// Exact order of `left_numerator^2 / left_denominator` against
/// `right_numerator^2 / right_denominator`, computed without loss by cross-multiplication.
pub fn ratio_order(
    left_numerator: u128,
    left_denominator: u128,
    right_numerator: u128,
    right_denominator: u128,
) -> (result: Result<RatioOrder, OrientedBoxError3d>)
    ensures
        match result {
            Ok(order) => left_denominator != 0 && right_denominator != 0 && order == order_of(
                left_numerator * left_numerator * right_denominator,
                right_numerator * right_numerator * left_denominator,
            ),
            Err(e) => e == OrientedBoxError3d::DegenerateGeometry && (left_denominator == 0
                || right_denominator == 0),
        },
{
    if left_denominator == 0 || right_denominator == 0 {
        return Err(OrientedBoxError3d::DegenerateGeometry);
    }
    let left = product_limbs(left_numerator, left_numerator, right_denominator);
    let right = product_limbs(right_numerator, right_numerator, left_denominator);
    Ok(compare_limbs(left, right))
}

/// Exact order of two squared normalized overlaps (`numerator^2 / denominator`), even when the
/// cross products exceed 128 bits.
pub fn compare_squared_ratios(
    left_numerator: u128,
    left_denominator: u128,
    right_numerator: u128,
    right_denominator: u128,
) -> (result: Result<std::cmp::Ordering, OrientedBoxError3d>)
    ensures
        match result {
            Ok(order) => left_denominator != 0 && right_denominator != 0 && {
                let l = left_numerator * left_numerator * right_denominator;
                let r = right_numerator * right_numerator * left_denominator;
                &&& (order == std::cmp::Ordering::Less <==> l < r)
                &&& (order == std::cmp::Ordering::Equal <==> l == r)
                &&& (order == std::cmp::Ordering::Greater <==> l > r)
            },
            Err(e) => e == OrientedBoxError3d::DegenerateGeometry && (left_denominator == 0
                || right_denominator == 0),
        },
{
    match ratio_order(left_numerator, left_denominator, right_numerator, right_denominator) {
        Ok(RatioOrder::Less) => Ok(std::cmp::Ordering::Less),
        Ok(RatioOrder::Equal) => Ok(std::cmp::Ordering::Equal),
        Ok(RatioOrder::Greater) => Ok(std::cmp::Ordering::Greater),
        Err(e) => Err(e),
    }
}

} // verus!
