use vstd::arithmetic::div_mod::{lemma_fundamental_div_mod, lemma_fundamental_div_mod_converse};
use vstd::prelude::*;

verus! {

/// Primality over the integers: at least two, and no divisor strictly
/// between one and itself.
pub open spec fn is_prime(n: int) -> bool {
    n >= 2 && forall|d: int| 2 <= d < n ==> #[trigger] (n % d) != 0
}

/// What the sieve has crossed out once every prime below `bound` has been
/// processed: the multiples `p * k` with `k >= p`.
pub open spec fn has_mark(m: int, bound: int) -> bool {
    exists|p: int, k: int| 2 <= p < bound && is_prime(p) && k >= p && m == #[trigger] (p * k)
}

/// Divisibility is transitive.
proof fn lemma_divides_trans(a: int, b: int, c: int)
    requires
        1 <= a,
        1 <= b,
        0 <= c,
        b % a == 0,
        c % b == 0,
    ensures
        c % a == 0,
{
    lemma_fundamental_div_mod(b, a);
    lemma_fundamental_div_mod(c, b);
    let q = (b / a) * (c / b);
    assert(c == q * a && q >= 0) by (nonlinear_arith)
        requires
            1 <= a,
            1 <= b,
            0 <= c,
            b == a * (b / a) + b % a,
            c == b * (c / b) + c % b,
            b % a == 0,
            c % b == 0,
            q == (b / a) * (c / b),
    ;
    lemma_fundamental_div_mod_converse(c, a, q, 0);
}

/// Every number from two up has a prime divisor.
proof fn lemma_prime_divisor(m: int)
    requires
        m >= 2,
    ensures
        exists|p: int| 2 <= p <= m && is_prime(p) && #[trigger] (m % p) == 0,
    decreases m,
{
    if is_prime(m) {
        lemma_fundamental_div_mod_converse(m, m, 1, 0);
        assert(2 <= m <= m && is_prime(m) && m % m == 0);
    } else {
        let d = choose|d: int| 2 <= d < m && #[trigger] (m % d) == 0;
        lemma_prime_divisor(d);
        let p = choose|p: int| 2 <= p <= d && is_prime(p) && #[trigger] (d % p) == 0;
        lemma_divides_trans(p, d, m);
        assert(2 <= p <= m && is_prime(p) && m % p == 0);
    }
}

/// A composite number splits as `p * k` with `p` prime and `k` at least `p`:
/// choose a small enough prime divisor and the cofactor is the larger part.
proof fn lemma_composite_split(m: int)
    requires
        m >= 2,
        !is_prime(m),
    ensures
        has_mark(m, m),
{
    lemma_prime_divisor(m);
    let p0 = choose|p: int| 2 <= p <= m && is_prime(p) && #[trigger] (m % p) == 0;
    assert(p0 < m);
    lemma_fundamental_div_mod(m, p0);
    let k0 = m / p0;
    assert(m == p0 * k0);
    assert(k0 >= 2) by (nonlinear_arith)
        requires
            m == p0 * k0,
            2 <= p0 < m,
    ;
    if k0 >= p0 {
        assert(2 <= p0 < m && is_prime(p0) && k0 >= p0 && m == p0 * k0);
        assert(has_mark(m, m));
    } else {
        lemma_prime_divisor(k0);
        let q = choose|q: int| 2 <= q <= k0 && is_prime(q) && #[trigger] (k0 % q) == 0;
        lemma_fundamental_div_mod(k0, q);
        let t = k0 / q;
        assert(k0 == q * t);
        let k1 = p0 * t;
        assert(m == q * k1 && k1 >= p0 && t >= 1) by (nonlinear_arith)
            requires
                m == p0 * k0,
                k0 == q * t,
                k1 == p0 * t,
                2 <= q <= k0,
                2 <= p0,
        ;
        assert(q < p0);
        assert(2 <= q < m && is_prime(q) && k1 >= q && m == q * k1);
        assert(has_mark(m, m));
    }
}

/// A number that carries a mark is composite.
proof fn lemma_marked_composite(m: int, bound: int)
    requires
        has_mark(m, bound),
    ensures
        !is_prime(m),
{
    let (p, k) = choose|p: int, k: int|
        2 <= p < bound && is_prime(p) && k >= p && m == #[trigger] (p * k);
    assert(m == p * k);
    assert(m > p && k >= 0) by (nonlinear_arith)
        requires
            m == p * k,
            2 <= p,
            k >= p,
    ;
    lemma_fundamental_div_mod_converse(m, p, k, 0);
    assert(m % p == 0);
    assert(2 <= p < m);
}

/// Find all prime numbers less than `n`.
/// For example, `sieve(7)` should return `[2, 3, 5]`.
#[verifier::loop_isolation(false)]
#[verifier::rlimit(60)]
pub fn sieve(n: u32) -> (r: Vec<u32>)
    requires
        n <= 0x10000,
    ensures
        forall|i: int| 0 <= i < r@.len() ==> is_prime(#[trigger] r@[i] as int) && r@[i] < n,
        forall|p: u32| 2 <= p < n && is_prime(p as int) ==> r@.contains(p),
        forall|i: int, j: int| 0 <= i < j < r@.len() ==> r@[i] < r@[j],
{
    let mut flags: Vec<bool> = Vec::new();
    let mut f: usize = 0;
    while f < n as usize
        invariant
            f <= n as usize,
            flags@.len() == f,
            forall|m: int| 0 <= m < f ==> flags@[m],
        decreases n as usize - f,
    {
        flags.push(true);
        f += 1;
    }
    let mut result: Vec<u32> = Vec::new();
    let mut num: u32 = 2;
    while num < n
        invariant
            2 <= num,
            n < 0x10001,
            num <= n || (n < 2 && num == 2),
            flags@.len() == n,
            forall|m: int| 0 <= m < n ==> (!flags@[m] <==> has_mark(m, num as int)),
            forall|i: int|
                0 <= i < result@.len() ==> is_prime(#[trigger] result@[i] as int) && 2 <= result@[i]
                    < num,
            forall|p: u32| 2 <= p < num && p < n && is_prime(p as int) ==> result@.contains(p),
            forall|i: int, j: int| 0 <= i < j < result@.len() ==> result@[i] < result@[j],
        decreases n - num,
    {
        if flags[num as usize] {
            proof {
                if !is_prime(num as int) {
                    lemma_composite_split(num as int);
                }
                assert(is_prime(num as int));
            }
            let ghost old_result = result@;
            result.push(num);
            proof {
                assert forall|p: u32|
                    2 <= p < num + 1 && p < n && is_prime(p as int) implies result@.contains(
                    p,
                ) by {
                    if p < num {
                        assert(old_result.contains(p));
                        let w = choose|w: int| 0 <= w < old_result.len() && old_result[w] == p;
                        assert(result@[w] == p);
                    } else {
                        assert(result@[result@.len() - 1] == p);
                    }
                }
            }
            let mut mul: u32 = num;
            proof {
                assert((mul as int) * (num as int) < 0x100000000 && mul as int <= (mul as int) * (
                num as int)) by (nonlinear_arith)
                    requires
                        mul < 0x10000,
                        num < 0x10000,
                        num >= 2,
                        mul >= 2,
                ;
            }
            let mut not_prime: u32 = mul * num;
            while not_prime < n
                invariant
                    2 <= num <= mul,
                    not_prime == mul * num,
                    mul <= 0x10000,
                    mul <= not_prime,
                    flags@.len() == n,
                    forall|m: int|
                        0 <= m < n ==> (!flags@[m] <==> has_mark(m, num as int) || (exists|k: int|
                            num as int <= k < mul as int && m == #[trigger] (num as int * k))),
                decreases n - mul,
            {
                let idx = not_prime as usize;
                let ghost old_flags = flags@;
                flags[idx] = false;
                proof {
                    assert forall|m: int|
                        0 <= m < n implies (!flags@[m] <==> has_mark(m, num as int) || (exists|
                            k: int,
                        |
                            num as int <= k < (mul as int + 1) && m == #[trigger] (num as int
                                * k))) by {
                        if m == not_prime as int {
                            assert(!flags@[m]);
                            assert(m == (num as int) * (mul as int)) by (nonlinear_arith)
                                requires
                                    m == not_prime as int,
                                    not_prime == mul * num,
                            ;
                            assert(exists|k: int|
                                num as int <= k < (mul as int + 1) && m == #[trigger] (num as int
                                    * k)) by {
                                assert(num as int <= mul as int && (mul as int) < (mul as int + 1)
                                    && m == (num as int) * (mul as int));
                            }
                        } else {
                            assert(flags@[m] == old_flags[m]);
                            if !flags@[m] {
                                if !has_mark(m, num as int) {
                                    assert(!old_flags[m]);
                                    assert(exists|k: int|
                                        num as int <= k < mul as int && m == #[trigger] (
                                        num as int * k));
                                    let k = choose|k: int|
                                        num as int <= k < mul as int && m == #[trigger] (num as int
                                            * k);
                                    assert(num as int <= k < (mul as int + 1));
                                    assert(exists|kk: int|
                                        num as int <= kk < (mul as int + 1) && m == #[trigger] (
                                        num as int * kk));
                                }
                            } else {
                                if exists|k: int|
                                    num as int <= k < (mul as int + 1) && m == #[trigger] (num as int
                                        * k) {
                                    let k = choose|k: int|
                                        num as int <= k < (mul as int + 1) && m == #[trigger] (
                                        num as int * k);
                                    assert(k != mul as int) by (nonlinear_arith)
                                        requires
                                            m == num as int * k,
                                            m != not_prime as int,
                                            not_prime == mul * num,
                                    ;
                                    assert(k < mul as int);
                                }
                            }
                        }
                    }
                }
                mul += 1;
                proof {
                    assert((mul - 1) * num < n);
                    assert(mul <= 0x10000) by (nonlinear_arith)
                        requires
                            (mul as int - 1) * (num as int) < n as int,
                            n <= 0x10000,
                            num >= 2,
                            mul >= 3,
                    ;
                    assert((mul as int) * (num as int) < 0x100000000) by (nonlinear_arith)
                        requires
                            mul <= 0x10000,
                            num < 0x10000,
                    ;
                }
                not_prime = mul * num;
                proof {
                    assert(mul <= not_prime && mul - 1 < n) by (nonlinear_arith)
                        requires
                            not_prime as int == (mul as int) * (num as int),
                            (mul as int - 1) * (num as int) < n as int,
                            num >= 2,
                            mul >= 3,
                    ;
                }
            }
            proof {
                assert forall|m: int|
                    0 <= m < n implies (!flags@[m] <==> has_mark(m, num as int + 1)) by {
                    if !flags@[m] {
                        if has_mark(m, num as int) {
                            let (p, k) = choose|p: int, k: int|
                                2 <= p < num as int && is_prime(p) && k >= p && m == #[trigger] (p
                                    * k);
                            assert(2 <= p && p < (num as int + 1) && is_prime(p) && k >= p && (m == p * k));
                        } else {
                            let k = choose|k: int|
                                num as int <= k < mul as int && m == #[trigger] (num as int * k);
                            assert(2 <= (num as int) && (num as int) < (num as int + 1) && is_prime(
                                num as int,
                            ) && k >= num as int && m == num as int * k);
                        }
                        assert(has_mark(m, num as int + 1));
                    } else {
                        if has_mark(m, num as int + 1) {
                            let (p, k) = choose|p: int, k: int|
                                2 <= p < num as int + 1 && is_prime(p) && k >= p && m
                                    == #[trigger] (p * k);
                            if p < num as int {
                                assert(has_mark(m, num as int));
                                assert(!flags@[m]);
                            } else {
                                assert(p == num as int);
                                assert(k < mul as int) by (nonlinear_arith)
                                    requires
                                        m == p * k,
                                        p == num as int,
                                        m < n,
                                        not_prime == mul * num,
                                        not_prime >= n,
                                        k >= 2,
                                        num >= 2,
                                ;
                                assert(num as int <= k);
                                assert(m == num as int * k);
                                assert(has_mark(m, num as int) ==> !flags@[m]);
                                assert(exists|kk: int|
                                    num as int <= kk < mul as int && m == #[trigger] (num as int
                                        * kk));
                                assert(!flags@[m]);
                            }
                        }
                    }
                }
            }
        } else {
            proof {
                assert(has_mark(num as int, num as int));
                lemma_marked_composite(num as int, num as int);
                assert forall|m: int|
                    0 <= m < n implies (!flags@[m] <==> has_mark(m, num as int + 1)) by {
                    if !flags@[m] {
                        assert(has_mark(m, num as int));
                        let (p, k) = choose|p: int, k: int|
                            2 <= p < num as int && is_prime(p) && k >= p && m == #[trigger] (p * k);
                        assert(2 <= p && p < (num as int + 1) && is_prime(p) && k >= p && (m == p * k));
                        assert(has_mark(m, num as int + 1));
                    } else {
                        if has_mark(m, num as int + 1) {
                            let (p, k) = choose|p: int, k: int|
                                2 <= p < num as int + 1 && is_prime(p) && k >= p && m
                                    == #[trigger] (p * k);
                            assert(p != num as int);
                            assert(has_mark(m, num as int));
                            assert(!flags@[m]);
                        }
                    }
                }
            }
        }
        num += 1;
    }
    result
}

} // verus!
