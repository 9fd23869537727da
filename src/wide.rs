//! 256-bit intermediate arithmetic, carried out by `primitive_types::U256`.
use primitive_types::U256;
use vstd::prelude::*;

verus! {

#[verifier::external_type_specification]
#[verifier::external_body]
pub struct ExU256(U256);

/// The number that a `U256` of primitive-types denotes.
pub uninterp spec fn wide_value(x: U256) -> nat;

/// One more than the largest value a `U256` can hold.
pub open spec fn wide_limit() -> nat {
    ((u128::MAX + 1) * (u128::MAX + 1)) as nat
}

/// Relies on `From<u128> for U256`: the two low words receive the value.
#[verifier::external_body]
pub(crate) fn wide(x: u128) -> (r: U256)
    ensures
        wide_value(r) == x,
{
    U256::from(x)
}

/// Relies on `U256::checked_mul`: `None` exactly when the product does not fit.
#[verifier::external_body]
pub(crate) fn wide_checked_mul(a: U256, b: U256) -> (r: Option<U256>)
    ensures
        match r {
            Some(p) => wide_value(a) * wide_value(b) < wide_limit() && wide_value(p)
                == wide_value(a) * wide_value(b),
            None => wide_value(a) * wide_value(b) >= wide_limit(),
        },
{
    a.checked_mul(b)
}

/// Relies on `U256::checked_add`: `None` exactly when the sum does not fit.
#[verifier::external_body]
pub(crate) fn wide_checked_add(a: U256, b: U256) -> (r: Option<U256>)
    ensures
        match r {
            Some(s) => wide_value(a) + wide_value(b) < wide_limit() && wide_value(s)
                == wide_value(a) + wide_value(b),
            None => wide_value(a) + wide_value(b) >= wide_limit(),
        },
{
    a.checked_add(b)
}

/// Relies on `U256::checked_sub`: `None` exactly when the difference is negative.
#[verifier::external_body]
pub(crate) fn wide_checked_sub(a: U256, b: U256) -> (r: Option<U256>)
    ensures
        match r {
            Some(d) => wide_value(a) >= wide_value(b) && wide_value(d) == wide_value(a)
                - wide_value(b),
            None => wide_value(a) < wide_value(b),
        },
{
    a.checked_sub(b)
}

/// Relies on `U256::checked_div`: `None` exactly for a zero divisor, else the floor quotient.
#[verifier::external_body]
pub(crate) fn wide_checked_div(a: U256, b: U256) -> (r: Option<U256>)
    ensures
        match r {
            Some(q) => wide_value(b) != 0 && wide_value(q) == wide_value(a) / wide_value(b),
            None => wide_value(b) == 0,
        },
{
    a.checked_div(b)
}

/// Relies on `U256::integer_sqrt`: the largest `n` with `n * n <= a`.
#[verifier::external_body]
pub(crate) fn wide_integer_sqrt(a: U256) -> (r: U256)
    ensures
        wide_value(r) * wide_value(r) <= wide_value(a),
        wide_value(a) < (wide_value(r) + 1) * (wide_value(r) + 1),
{
    a.integer_sqrt()
}

/// Relies on `TryFrom<U256> for u128`: it succeeds exactly when the value fits.
#[verifier::external_body]
pub(crate) fn wide_to_u128(a: U256) -> (r: Option<u128>)
    ensures
        match r {
            Some(n) => wide_value(a) <= u128::MAX && n == wide_value(a),
            None => wide_value(a) > u128::MAX,
        },
{
    u128::try_from(a).ok()
}

/// Relies on `Ord for U256`: numeric comparison.
#[verifier::external_body]
pub(crate) fn wide_ge(a: &U256, b: &U256) -> (r: bool)
    ensures
        r == (wide_value(*a) >= wide_value(*b)),
{
    a >= b
}

/// Relies on `U256::is_zero`.
#[verifier::external_body]
pub(crate) fn wide_is_zero(a: &U256) -> (r: bool)
    ensures
        r == (wide_value(*a) == 0),
{
    a.is_zero()
}

} // verus!
