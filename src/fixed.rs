use vstd::prelude::*;

verus! {

/// Division rounded down (towards negative infinity) by a positive divisor.
pub fn floor_div(a: i128, b: i128) -> (q: i128)
    requires
        b > 0,
    ensures
        q == a / b,
{
    if a >= 0 {
        a / b
    } else {
        let n: i128 = -(a + 1);
        let q0: i128 = n / b;
        let r0: i128 = n % b;
        proof {
            vstd::arithmetic::div_mod::lemma_fundamental_div_mod(n as int, b as int);
            vstd::arithmetic::div_mod::lemma_mod_bound(n as int, b as int);
            assert(a == (-q0 - 1) * b + (b - 1 - r0)) by (nonlinear_arith)
                requires
                    n == b * q0 + r0,
                    n == -(a + 1),
            ;
            vstd::arithmetic::div_mod::lemma_fundamental_div_mod_converse(
                a as int,
                b as int,
                -q0 - 1,
                b - 1 - r0,
            );
        }
        -q0 - 1
    }
}

/// The non-negative remainder of the division by a positive divisor.
pub fn floor_mod(a: i128, b: i128) -> (r: i128)
    requires
        b > 0,
    ensures
        r == a % b,
        0 <= r < b,
{
    if a >= 0 {
        a % b
    } else {
        let n: i128 = -(a + 1);
        let q0: i128 = n / b;
        let r0: i128 = n % b;
        proof {
            vstd::arithmetic::div_mod::lemma_fundamental_div_mod(n as int, b as int);
            vstd::arithmetic::div_mod::lemma_mod_bound(n as int, b as int);
            assert(a == (-q0 - 1) * b + (b - 1 - r0)) by (nonlinear_arith)
                requires
                    n == b * q0 + r0,
                    n == -(a + 1),
            ;
            vstd::arithmetic::div_mod::lemma_fundamental_div_mod_converse(
                a as int,
                b as int,
                -q0 - 1,
                b - 1 - r0,
            );
        }
        b - 1 - r0
    }
}

} // verus!
