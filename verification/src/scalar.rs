//! Arithmetic and comparison on a number type that the caller chooses.
//!
//! Widths, losses and areas are measured in a type `S` with the standard operators. The operators
//! of some types are exact (integers), those of others round (floating point), so a contract
//! here speaks of an operation as a relation: `product(a, b, r)` says that `r` is a value that
//! `a * b` may evaluate to. For a type whose operators have an exact meaning, the relation holds of
//! that one value only; `integers_are_exact` spells this out for `i64`.
use std::ops::{Add, Div, Mul, Sub};
use vstd::prelude::*;
use vstd::std_specs::ops::{AddSpec, DivSpec, MulSpec, SubSpec};

verus! {

/// A number type: copyable, ordered, and closed under the four operations.
pub trait Scalar:
    Copy + PartialOrd + Add<Output = Self> + Sub<Output = Self> + Mul<Output = Self> + Div<
    Output = Self,
> {

}

impl<T> Scalar for T where
    T: Copy + PartialOrd + Add<Output = T> + Sub<Output = T> + Mul<Output = T> + Div<Output = T>,
 {

}

/// `r` is a value of `a + b`.
pub open spec fn sum<S: Scalar>(a: S, b: S, r: S) -> bool {
    call_ensures(<S as Add>::add, (a, b), r)
}

/// `r` is a value of `a - b`.
pub open spec fn difference<S: Scalar>(a: S, b: S, r: S) -> bool {
    call_ensures(<S as Sub>::sub, (a, b), r)
}

/// `r` is a value of `a * b`.
pub open spec fn product<S: Scalar>(a: S, b: S, r: S) -> bool {
    call_ensures(<S as Mul>::mul, (a, b), r)
}

/// `r` is a value of `a / b`.
pub open spec fn quotient<S: Scalar>(a: S, b: S, r: S) -> bool {
    call_ensures(<S as Div>::div, (a, b), r)
}

/// `o` is an outcome of `a < b`.
pub open spec fn below<S: Scalar>(a: S, b: S, o: bool) -> bool {
    call_ensures(<S as PartialOrd>::lt, (&a, &b), o)
}

/// `o` is an outcome of `a <= b`.
pub open spec fn at_most<S: Scalar>(a: S, b: S, o: bool) -> bool {
    call_ensures(<S as PartialOrd>::le, (&a, &b), o)
}

/// `o` is an outcome of `a > b`.
pub open spec fn above<S: Scalar>(a: S, b: S, o: bool) -> bool {
    call_ensures(<S as PartialOrd>::gt, (&a, &b), o)
}

/// `o` is an outcome of `a >= b`.
pub open spec fn at_least<S: Scalar>(a: S, b: S, o: bool) -> bool {
    call_ensures(<S as PartialOrd>::ge, (&a, &b), o)
}

/// `o` is an outcome of `a == b`.
pub open spec fn equal<S: Scalar>(a: S, b: S, o: bool) -> bool {
    call_ensures(<S as PartialEq>::eq, (&a, &b), o)
}

/// `o` is an outcome of `a != b`.
pub open spec fn unequal<S: Scalar>(a: S, b: S, o: bool) -> bool {
    call_ensures(<S as PartialEq>::ne, (&a, &b), o)
}

/// `r` is the lesser of `a` and `b`, where a value that differs from itself counts as missing.
pub open spec fn lesser_of<S: Scalar>(a: S, b: S, r: S) -> bool {
    exists|missing: bool, first: bool|
        {
            &&& #[trigger] unequal(b, b, missing)
            &&& #[trigger] below(a, b, first)
            &&& r == if missing || first {
                a
            } else {
                b
            }
        }
}

/// `r` is the greater of `a` and `b`, where a value that differs from itself counts as missing.
pub open spec fn greater_of<S: Scalar>(a: S, b: S, r: S) -> bool {
    exists|missing: bool, first: bool|
        {
            &&& #[trigger] unequal(b, b, missing)
            &&& #[trigger] above(a, b, first)
            &&& r == if missing || first {
                a
            } else {
                b
            }
        }
}

/// The lesser of two values; if one of them is not a number, the other one.
pub fn lesser<S: Scalar>(a: S, b: S) -> (r: S)
    ensures
        lesser_of(a, b, r),
{
    let missing = b != b;
    let first = a < b;
    assert(unequal(b, b, missing) && below(a, b, first));
    if missing || first {
        a
    } else {
        b
    }
}

/// The greater of two values; if one of them is not a number, the other one.
pub fn greater<S: Scalar>(a: S, b: S) -> (r: S)
    ensures
        greater_of(a, b, r),
{
    let missing = b != b;
    let first = a > b;
    assert(unequal(b, b, missing) && above(a, b, first));
    if missing || first {
        a
    } else {
        b
    }
}

/// `r` is a value of `zero + a[0] * b[0] + a[1] * b[1] + ..`, added up from the left.
pub open spec fn weighted_total<S: Scalar>(zero: S, a: Seq<S>, b: Seq<S>, r: S) -> bool
    decreases a.len(),
{
    if a.len() == 0 {
        r == zero
    } else {
        exists|before: S, term: S|
            {
                &&& weighted_total(zero, a.drop_last(), b.drop_last(), before)
                &&& #[trigger] product(a.last(), b.last(), term)
                &&& #[trigger] sum(before, term, r)
            }
    }
}

/// Every product and every partial sum of the weighted total can be computed.
pub open spec fn can_total<S: Scalar>(zero: S, a: Seq<S>, b: Seq<S>) -> bool {
    &&& forall|i: int| 0 <= i < a.len() ==> #[trigger] a[i].mul_req(b[i])
    &&& forall|i: int, before: S, term: S|
        0 <= i < a.len() && #[trigger] weighted_total(zero, a.take(i), b.take(i), before)
            && #[trigger] product(a[i], b[i], term) ==> before.add_req(term)
}

/// The sum of the products of corresponding elements, starting from `zero`.
pub fn total<S: Scalar>(zero: S, a: &Vec<S>, b: &Vec<S>) -> (r: S)
    requires
        a.len() == b.len(),
        can_total(zero, a@, b@),
    ensures
        weighted_total(zero, a@, b@, r),
{
    let mut r = zero;
    let mut i: usize = 0;
    while i < a.len()
        invariant
            i <= a.len(),
            a.len() == b.len(),
            can_total(zero, a@, b@),
            weighted_total(zero, a@.take(i as int), b@.take(i as int), r),
        decreases a.len() - i,
    {
        assert(a@[i as int].mul_req(b@[i as int]));
        let term = a[i] * b[i];
        assert(product(a@[i as int], b@[i as int], term));
        let next = r + term;
        proof {
            assert(a@.take(i + 1).drop_last() == a@.take(i as int));
            assert(b@.take(i + 1).drop_last() == b@.take(i as int));
            assert(product(a@.take(i + 1).last(), b@.take(i + 1).last(), term));
            assert(sum(r, term, next));
        }
        r = next;
        i += 1;
    }
    proof {
        assert(a@.take(i as int) == a@);
        assert(b@.take(i as int) == b@);
    }
    r
}

/// `a` is a number: it does not differ from itself.
pub open spec fn number<S: Scalar>(a: S) -> bool {
    !unequal(a, a, true)
}

/// `value` tells which number stands behind each `S` that is one, and the comparisons go by it.
pub open spec fn ordered_by<S: Scalar>(value: spec_fn(S) -> real) -> bool {
    &&& forall|a: S, b: S, o: bool| #[trigger]
        below(a, b, o) && number(a) && number(b) ==> o == (value(a) < value(b))
    &&& forall|a: S, b: S, o: bool| #[trigger]
        at_most(a, b, o) && number(a) && number(b) ==> o == (value(a) <= value(b))
    &&& forall|a: S, b: S, o: bool| #[trigger]
        above(a, b, o) && number(a) && number(b) ==> o == (value(a) > value(b))
    &&& forall|a: S, b: S, o: bool| #[trigger]
        at_least(a, b, o) && number(a) && number(b) ==> o == (value(a) >= value(b))
    &&& forall|a: S, b: S, o: bool| #[trigger]
        equal(a, b, o) && number(a) && number(b) ==> o == (value(a) == value(b))
    &&& forall|a: S, b: S, o: bool| #[trigger]
        unequal(a, b, o) && number(a) && number(b) ==> o == (value(a) != value(b))
}

/// Everything is a number, comparisons go by the numbers, and sums, differences and products are exact where they can
/// be computed.
pub open spec fn exact_arithmetic<S: Scalar>(value: spec_fn(S) -> real) -> bool {
    &&& forall|a: S| #[trigger] number(a)
    &&& ordered_by(value)
    &&& forall|a: S, b: S, r: S| #[trigger]
        sum(a, b, r) && a.add_req(b) ==> value(r) == value(a) + value(b)
    &&& forall|a: S, b: S, r: S| #[trigger]
        difference(a, b, r) && a.sub_req(b) ==> value(r) == value(a) - value(b)
    &&& forall|a: S, b: S, r: S| #[trigger]
        product(a, b, r) && a.mul_req(b) ==> value(r) == value(a) * value(b)
}

/// A quotient is the greatest number that can be multiplied by the divisor without exceeding the dividend, be it
/// exact or cut down to a whole number.
pub open spec fn exact_division<S: Scalar>(value: spec_fn(S) -> real) -> bool {
    forall|a: S, b: S, r: S|
        #![trigger quotient(a, b, r)]
        quotient(a, b, r) && a.div_req(b) && 0real <= value(a) && 0real < value(b) ==> value(r) * value(b) <= value(a)
            && forall|x: S| #[trigger] value(x) * value(b) <= value(a) ==> value(x) <= value(r)
}

/// Every comparison has one outcome only, and so has every operation that gives a number.
pub open spec fn single_valued<S: Scalar>() -> bool {
    &&& forall|a: S, b: S, r: S, s: S| #[trigger]
        sum(a, b, r) && #[trigger] sum(a, b, s) && number(r) ==> r == s
    &&& forall|a: S, b: S, r: S, s: S| #[trigger]
        difference(a, b, r) && #[trigger] difference(a, b, s) && number(r) ==> r == s
    &&& forall|a: S, b: S, r: S, s: S| #[trigger]
        product(a, b, r) && #[trigger] product(a, b, s) && number(r) ==> r == s
    &&& forall|a: S, b: S, r: S, s: S| #[trigger]
        quotient(a, b, r) && #[trigger] quotient(a, b, s) && number(r) ==> r == s
    &&& forall|a: S, b: S| !(#[trigger] below(a, b, true) && below(a, b, false))
    &&& forall|a: S, b: S| !(#[trigger] at_most(a, b, true) && at_most(a, b, false))
    &&& forall|a: S, b: S| !(#[trigger] above(a, b, true) && above(a, b, false))
    &&& forall|a: S, b: S| !(#[trigger] at_least(a, b, true) && at_least(a, b, false))
    &&& forall|a: S, b: S| !(#[trigger] equal(a, b, true) && equal(a, b, false))
    &&& forall|a: S, b: S| !(#[trigger] unequal(a, b, true) && unequal(a, b, false))
}

/// Comparisons go by the numbers, and greater operands do not give lesser results, where operands and results are
/// numbers and can be computed. Rounding keeps that, also to infinity.
pub open spec fn monotone_arithmetic<S: Scalar>(value: spec_fn(S) -> real) -> bool {
    &&& ordered_by(value)
    &&& forall|a: S, b: S, r: S, c: S, d: S, s: S| #[trigger]
        sum(a, b, r) && #[trigger] sum(c, d, s) && a.add_req(b) && c.add_req(d) && number(a)
            && number(b) && number(r) && number(c) && number(d) && number(s) && value(a) <= value(c)
            && value(b) <= value(d) ==> value(r) <= value(s)
    &&& forall|a: S, b: S, r: S, c: S, s: S| #[trigger]
        product(a, b, r) && #[trigger] product(c, b, s) && a.mul_req(b) && c.mul_req(b) && number(a)
            && number(b) && number(r) && number(c) && number(s) && 0real <= value(b) && value(a)
            <= value(c) ==> value(r) <= value(s)
    &&& forall|a: S, b: S, r: S, d: S, s: S| #[trigger]
        product(a, b, r) && #[trigger] product(a, d, s) && a.mul_req(b) && a.mul_req(d) && number(a)
            && number(b) && number(r) && number(d) && number(s) && 0real <= value(a) && value(b)
            <= value(d) ==> value(r) <= value(s)
    &&& forall|a: S, b: S, r: S, c: S, s: S| #[trigger]
        quotient(a, b, r) && #[trigger] quotient(c, b, s) && a.div_req(b) && c.div_req(b) && number(
            a,
        ) && number(b) && number(r) && number(c) && number(s) && 0real < value(b) && 0real <= value(
            a,
        ) <= value(c) ==> value(r) <= value(s)
}

/// Every product and every partial sum of a weighted total is a number.
pub open spec fn numbers_in_total<S: Scalar>(zero: S, a: Seq<S>, b: Seq<S>) -> bool {
    &&& forall|i: int, before: S|
        0 <= i <= a.len() && #[trigger] weighted_total(zero, a.take(i), b.take(i), before)
            ==> number(before)
    &&& forall|i: int| 0 <= i < a.len() ==> number(#[trigger] a[i]) && number(b[i])
    &&& forall|i: int, term: S|
        0 <= i < a.len() && #[trigger] product(a[i], b[i], term) ==> number(term)
}

/// The number that an `i64` is.
pub open spec fn whole(n: i64) -> real {
    n as real
}

/// Exact arithmetic is monotone.
pub proof fn exact_is_monotone<S: Scalar>(value: spec_fn(S) -> real)
    requires
        exact_arithmetic(value),
        exact_division(value),
    ensures
        monotone_arithmetic(value),
{
    assert forall|a: S, b: S, r: S, c: S, s: S| #[trigger]
        product(a, b, r) && #[trigger] product(c, b, s) && a.mul_req(b) && c.mul_req(b) && 0real
            <= value(b) && value(a) <= value(c) implies value(r) <= value(s) by {
        lemma_product_grows(value(a), value(c), value(b));
    }
    assert forall|a: S, b: S, r: S, d: S, s: S| #[trigger]
        product(a, b, r) && #[trigger] product(a, d, s) && a.mul_req(b) && a.mul_req(d) && 0real
            <= value(a) && value(b) <= value(d) implies value(r) <= value(s) by {
        lemma_product_grows(value(b), value(d), value(a));
        assert(value(a) * value(b) == value(b) * value(a)) by (nonlinear_arith);
        assert(value(a) * value(d) == value(d) * value(a)) by (nonlinear_arith);
    }
    assert forall|a: S, b: S, r: S, c: S, s: S| #[trigger]
        quotient(a, b, r) && #[trigger] quotient(c, b, s) && a.div_req(b) && c.div_req(b) && 0real
            < value(b) && 0real <= value(a) <= value(c) implies value(r) <= value(s) by {
        assert(value(r) * value(b) <= value(c));
    }
}

proof fn lemma_product_grows(a: real, c: real, b: real)
    requires
        0real <= b,
        a <= c,
    ensures
        a * b <= c * b,
{
    assert(a * b <= c * b) by (nonlinear_arith)
        requires
            0real <= b,
            a <= c,
    ;
}

/// Multiplication of whole numbers is that of integers.
proof fn lemma_whole_product(a: int, b: int)
    ensures
        (a as real) * (b as real) == (a * b) as real,
{
    assert((a as real) * (b as real) == (a * b) as real) by (nonlinear_arith);
}

/// Integers are exact where no operation overflows.
pub proof fn integers_are_exact()
    ensures
        exact_arithmetic(|n: i64| whole(n)),
        exact_division(|n: i64| whole(n)),
        single_valued::<i64>(),
{
    let value = |n: i64| whole(n);
    assert(ordered_by(value));
    assert forall|a: i64, b: i64, r: i64| #[trigger] product(a, b, r) && a.mul_req(b) implies value(
        r,
    ) == value(a) * value(b) by {
        lemma_whole_product(a as int, b as int);
    }
    assert forall|a: i64, b: i64, r: i64|
        #![trigger quotient(a, b, r)]
        quotient(a, b, r) && a.div_req(b) && 0real <= value(a) && 0real < value(b) implies value(r)
        * value(b) <= value(a) && forall|x: i64| #[trigger] value(x) * value(b) <= value(a) ==> value(x) <= value(r) by {
        assert(r == a as int / b as int);
        lemma_whole_product(r as int, b as int);
        assert(r * b <= a) by (nonlinear_arith)
            requires
                r == a as int / b as int,
                0 <= a,
                0 < b,
        ;
        assert forall|x: i64| #[trigger] value(x) * value(b) <= value(a) implies value(x) <= value(r) by {
            lemma_whole_product(x as int, b as int);
            assert(x <= r) by (nonlinear_arith)
                requires
                    r == a as int / b as int,
                    0 <= a,
                    0 < b,
                    x * b <= a,
            ;
        }
    }
}

/// The lesser and the greater of two numbers are these two, in order.
pub proof fn law_lesser_and_greater<S: Scalar>(
    value: spec_fn(S) -> real,
    a: S,
    b: S,
    least: S,
    most: S,
)
    requires
        ordered_by(value),
        number(a),
        number(b),
        lesser_of(a, b, least),
        greater_of(a, b, most),
    ensures
        least == a || least == b,
        most == a || most == b,
        value(least) <= value(a) <= value(most),
        value(least) <= value(b) <= value(most),
{
}

/// Of something that differs from itself and another one, the other one is the lesser and the greater. Nothing compares
/// to what differs from itself.
pub proof fn law_missing_value_is_ignored<S: Scalar>(missing: S, a: S, r: S)
    requires
        !unequal(missing, missing, false),
        number(a),
        !below(missing, a, true),
        !above(missing, a, true),
    ensures
        lesser_of(missing, a, r) ==> r == a,
        greater_of(missing, a, r) ==> r == a,
        lesser_of(a, missing, r) ==> r == a,
        greater_of(a, missing, r) ==> r == a,
{
}

/// A weighted total starts at zero, and one more pair of factors adds its product.
pub proof fn law_total_grows_by_products<S: Scalar>(
    zero: S,
    a: Seq<S>,
    b: Seq<S>,
    x: S,
    y: S,
    r: S,
)
    ensures
        weighted_total(zero, Seq::empty(), Seq::empty(), r) <==> r == zero,
        weighted_total(zero, a.push(x), b.push(y), r) <==> exists|before: S, term: S|
            {
                &&& weighted_total(zero, a, b, before)
                &&& #[trigger] call_ensures(<S as Mul>::mul, (x, y), term)
                &&& #[trigger] call_ensures(<S as Add>::add, (before, term), r)
            },
{
    let (c, d) = (a.push(x), b.push(y));
    assert(c.drop_last() == a && d.drop_last() == b);
    if weighted_total(zero, c, d, r) {
        let (before, term) = choose|before: S, term: S|
            {
                &&& weighted_total(zero, c.drop_last(), d.drop_last(), before)
                &&& #[trigger] product(c.last(), d.last(), term)
                &&& #[trigger] sum(before, term, r)
            };
        assert(call_ensures(<S as Mul>::mul, (x, y), term));
        assert(call_ensures(<S as Add>::add, (before, term), r));
    }
    if exists|before: S, term: S|
        {
            &&& weighted_total(zero, a, b, before)
            &&& #[trigger] call_ensures(<S as Mul>::mul, (x, y), term)
            &&& #[trigger] call_ensures(<S as Add>::add, (before, term), r)
        } {
        let (before, term) = choose|before: S, term: S|
            {
                &&& weighted_total(zero, a, b, before)
                &&& #[trigger] call_ensures(<S as Mul>::mul, (x, y), term)
                &&& #[trigger] call_ensures(<S as Add>::add, (before, term), r)
            };
        assert(product(c.last(), d.last(), term));
        assert(sum(before, term, r));
    }
}

/// What can be added up can be added up without the last pair.
pub proof fn lemma_can_total_prefix<S: Scalar>(zero: S, a: Seq<S>, b: Seq<S>)
    requires
        a.len() == b.len(),
        a.len() > 0,
        can_total(zero, a, b),
    ensures
        can_total(zero, a.drop_last(), b.drop_last()),
        a.last().mul_req(b.last()),
        forall|before: S, term: S| #[trigger]
            weighted_total(zero, a.drop_last(), b.drop_last(), before) && #[trigger] product(
                a.last(),
                b.last(),
                term,
            ) ==> before.add_req(term),
{
    let n = a.len() - 1;
    assert(a[n].mul_req(b[n]));
    assert(a.take(n) == a.drop_last() && b.take(n) == b.drop_last());
    assert forall|i: int| 0 <= i < n implies #[trigger] a.drop_last()[i].mul_req(
        b.drop_last()[i],
    ) by {
        assert(a[i].mul_req(b[i]));
    }
    assert forall|i: int, before: S, term: S|
        0 <= i < n && #[trigger] weighted_total(
            zero,
            a.drop_last().take(i),
            b.drop_last().take(i),
            before,
        ) && #[trigger] product(a.drop_last()[i], b.drop_last()[i], term) implies before.add_req(
        term,
    ) by {
        assert(a.drop_last().take(i) == a.take(i) && b.drop_last().take(i) == b.take(i));
        assert(product(a[i], b[i], term));
    }
}

/// With exact numbers a weighted total is the sum of the products.
pub proof fn law_total_is_exact<S: Scalar>(
    value: spec_fn(S) -> real,
    zero: S,
    a: Seq<S>,
    b: Seq<S>,
    r: S,
)
    requires
        exact_arithmetic(value),
        a.len() == b.len(),
        can_total(zero, a, b),
        weighted_total(zero, a, b, r),
    ensures
        value(r) == Seq::new(a.len(), |i: int| value(a[i]) * value(b[i])).fold_left(
            value(zero),
            |total: real, x: real| total + x,
        ),
    decreases a.len(),
{
    let products = Seq::new(a.len(), |i: int| value(a[i]) * value(b[i]));
    if a.len() > 0 {
        let (c, d) = (a.drop_last(), b.drop_last());
        let (before, term) = choose|before: S, term: S|
            {
                &&& weighted_total(zero, c, d, before)
                &&& #[trigger] product(a.last(), b.last(), term)
                &&& #[trigger] sum(before, term, r)
            };
        lemma_can_total_prefix(zero, a, b);
        law_total_is_exact(value, zero, c, d, before);
        assert(products.drop_last() =~= Seq::new(c.len(), |i: int| value(c[i]) * value(d[i])));
    }
}

/// Every operation can be computed on every pair of values, as on floating point.
pub open spec fn always_computed<S: Scalar>() -> bool {
    &&& forall|a: S, b: S| #[trigger] a.add_req(b)
    &&& forall|a: S, b: S| #[trigger] a.sub_req(b)
    &&& forall|a: S, b: S| #[trigger] a.mul_req(b)
    &&& forall|a: S, b: S| #[trigger] a.div_req(b)
}

/// Where every operation can be computed, every total can.
pub proof fn law_totals_are_computed<S: Scalar>(zero: S, a: Seq<S>, b: Seq<S>)
    requires
        always_computed::<S>(),
    ensures
        can_total(zero, a, b),
{
}

} // verus!
