use vstd::arithmetic::div_mod::{
    lemma_add_mod_noop, lemma_fundamental_div_mod, lemma_mod_bound, lemma_mod_multiples_basic,
    lemma_mod_multiples_vanish, lemma_small_mod,
};
use vstd::arithmetic::power::pow;
use vstd::prelude::*;

verus! {

/// `p` is a prime: it exceeds one and no integer strictly between one and `p` divides it.
pub open spec fn is_prime(p: int) -> bool {
    p > 1 && forall|d: int| 1 < d < p ==> #[trigger] (p % d) != 0
}

/// The binomial coefficient `n choose k`, by Pascal's rule.
pub open spec fn binomial(n: nat, k: nat) -> nat
    decreases n,
{
    if k == 0 {
        1
    } else if n == 0 {
        0
    } else {
        binomial((n - 1) as nat, (k - 1) as nat) + binomial((n - 1) as nat, k)
    }
}

/// `sum of binomial(n, i) * x^i for i in 0..=j`
pub open spec fn binomial_sum(n: nat, x: int, j: nat) -> int
    decreases j,
{
    if j == 0 {
        1
    } else {
        binomial_sum(n, x, (j - 1) as nat) + binomial(n, j) * pow(x, j)
    }
}

/// Euclid's lemma: a prime that divides `a * b` and not `a` divides `b`.
proof fn lemma_euclid(a: int, b: int, p: int)
    requires
        is_prime(p),
        0 < a < p,
        (a * b) % p == 0,
    ensures
        b % p == 0,
    decreases a,
{
    if a == 1 {
        assert(a * b == b) by (nonlinear_arith)
            requires
                a == 1,
        ;
    } else {
        let q = p / a;
        let r = p % a;
        lemma_fundamental_div_mod(p, a);
        lemma_mod_bound(p, a);
        assert(r != 0);
        let t = (a * b) / p;
        lemma_fundamental_div_mod(a * b, p);
        assert(r * b == (b - q * t) * p) by (nonlinear_arith)
            requires
                p == a * q + r,
                a * b == p * t,
        ;
        lemma_mod_multiples_basic(b - q * t, p);
        lemma_euclid(r, b, p);
    }
}

proof fn lemma_binomial_above(n: nat, k: nat)
    requires
        k > n,
    ensures
        binomial(n, k) == 0,
    decreases n,
{
    if n > 0 {
        lemma_binomial_above((n - 1) as nat, (k - 1) as nat);
        lemma_binomial_above((n - 1) as nat, k);
    }
}

proof fn lemma_binomial_one(n: nat)
    ensures
        binomial(n, 1) == n,
    decreases n,
{
    if n > 0 {
        lemma_binomial_one((n - 1) as nat);
        assert(binomial((n - 1) as nat, 0) == 1);
    }
}

/// `k * (n choose k) == n * (n - 1 choose k - 1)`
proof fn lemma_binomial_absorb(n: nat, k: nat)
    requires
        n >= 1,
        k >= 1,
    ensures
        k * binomial(n, k) == n * binomial((n - 1) as nat, (k - 1) as nat),
    decreases n,
{
    if k == 1 {
        lemma_binomial_one(n);
        assert(binomial((n - 1) as nat, 0) == 1);
    } else if n == 1 {
        lemma_binomial_above(0, (k - 1) as nat);
        lemma_binomial_above(0, k);
    } else {
        let c = binomial((n - 1) as nat, (k - 1) as nat) as int;
        let d = binomial((n - 1) as nat, k) as int;
        let e = binomial((n - 2) as nat, (k - 2) as nat) as int;
        let f = binomial((n - 2) as nat, (k - 1) as nat) as int;
        lemma_binomial_absorb((n - 1) as nat, (k - 1) as nat);
        lemma_binomial_absorb((n - 1) as nat, k);
        assert(binomial(n, k) == c + d);
        assert(c == e + f);
        let (ki, ni) = (k as int, n as int);
        assert(ki * (c + d) == ni * c) by (nonlinear_arith)
            requires
                (ki - 1) * c == (ni - 1) * e,
                ki * d == (ni - 1) * f,
                c == e + f,
        ;
    }
}

/// Pascal's rule carried over to the partial sums.
proof fn lemma_binomial_sum_step(n: nat, x: int, j: nat)
    requires
        j >= 1,
    ensures
        binomial_sum(n + 1, x, j) == binomial_sum(n, x, j) + x * binomial_sum(n, x, (j - 1) as nat),
    decreases j,
{
    let a = binomial(n, j) as int;
    let b = binomial(n, (j - 1) as nat) as int;
    assert(binomial(n + 1, j) == a + b);
    reveal(pow);
    assert(pow(x, j) == x * pow(x, (j - 1) as nat));
    if j == 1 {
        assert(pow(x, 0) == 1);
        assert(b == 1);
        assert(binomial_sum(n, x, 0) == 1);
        assert(binomial_sum(n + 1, x, 0) == 1);
        assert((a + b) * (x * 1) == a * (x * 1) + x * 1) by (nonlinear_arith)
            requires
                b == 1,
        ;
    } else {
        lemma_binomial_sum_step(n, x, (j - 1) as nat);
        let s1 = binomial_sum(n, x, (j - 1) as nat);
        let s2 = binomial_sum(n, x, (j - 2) as nat);
        let w = pow(x, (j - 1) as nat);
        assert(s1 == s2 + b * w);
        assert((a + b) * (x * w) == a * (x * w) + x * (b * w)) by (nonlinear_arith);
        assert(x * s2 + x * (b * w) == x * (s2 + b * w)) by (nonlinear_arith);
    }
}

/// The binomial theorem at `(x + 1)^n`.
proof fn lemma_binomial_theorem(n: nat, x: int)
    ensures
        pow(x + 1, n) == binomial_sum(n, x, n),
    decreases n,
{
    if n > 0 {
        let m = (n - 1) as nat;
        lemma_binomial_theorem(m, x);
        lemma_binomial_sum_step(m, x, n);
        lemma_binomial_above(m, n);
        let s = binomial_sum(m, x, m);
        reveal(pow);
        assert(pow(x + 1, n) == (x + 1) * pow(x + 1, m));
        assert(binomial_sum(m, x, n) == s + binomial(m, n) * pow(x, n));
        let z = binomial(m, n) as int;
        assert(z * pow(x, n) == 0) by (nonlinear_arith)
            requires
                z == 0,
        ;
        assert(binomial_sum(n, x, n) == binomial_sum(m, x, n) + x * s);
        assert((x + 1) * s == s + x * s) by (nonlinear_arith);
        assert(pow(x + 1, n) == (x + 1) * s);
        assert(binomial_sum(m, x, n) == s);
        assert(binomial_sum(n, x, n) == (x + 1) * s);
    } else {
        reveal(pow);
    }
}

/// Every middle term of `(x + 1)^p` vanishes modulo a prime `p`.
proof fn lemma_binomial_sum_mod_prime(p: nat, x: int, j: nat)
    requires
        is_prime(p as int),
        j < p,
    ensures
        binomial_sum(p, x, j) % (p as int) == 1int % (p as int),
    decreases j,
{
    if j > 0 {
        let pi = p as int;
        lemma_binomial_sum_mod_prime(p, x, (j - 1) as nat);
        lemma_binomial_absorb(p, j);
        let c = binomial(p, j) as int;
        let t = binomial((p - 1) as nat, (j - 1) as nat) as int;
        assert((j as int * c) % pi == 0) by {
            assert(j as int * c == t * pi) by (nonlinear_arith)
                requires
                    j as int * c == pi * t,
            ;
            lemma_mod_multiples_basic(t, pi);
        }
        lemma_euclid(j as int, c, pi);
        lemma_fundamental_div_mod(c, pi);
        let u = c / pi;
        assert(c * pow(x, j) == pi * (u * pow(x, j))) by (nonlinear_arith)
            requires
                c == pi * u,
        ;
        lemma_mod_multiples_vanish(u * pow(x, j), binomial_sum(p, x, (j - 1) as nat), pi);
    }
}

/// Fermat's little theorem in its first form: `x^p = x` modulo a prime `p`.
proof fn lemma_pow_prime(x: nat, p: nat)
    requires
        is_prime(p as int),
    ensures
        pow(x as int, p) % (p as int) == (x as int) % (p as int),
    decreases x,
{
    let pi = p as int;
    if x == 0 {
        reveal(pow);
        assert(pow(0, p) == 0 * pow(0, (p - 1) as nat));
        assert(pow(0, p) == 0);
        lemma_small_mod(0, p);
    } else {
        let y = (x - 1) as nat;
        lemma_pow_prime(y, p);
        lemma_binomial_theorem(p, y as int);
        lemma_binomial_sum_mod_prime(p, y as int, (p - 1) as nat);
        assert(binomial_sum(p, y as int, p) == binomial_sum(p, y as int, (p - 1) as nat) + binomial(
            p,
            p,
        ) * pow(y as int, p));
        lemma_binomial_one_top(p);
        let s = binomial_sum(p, y as int, (p - 1) as nat);
        let py = pow(y as int, p);
        lemma_add_mod_noop(s, py, pi);
        lemma_add_mod_noop(1, y as int, pi);
        lemma_small_mod(1, p);
        assert(pow(x as int, p) == s + py);
        assert((s + py) % pi == ((s % pi) + (py % pi)) % pi);
        assert((s + py) % pi == (1 + y as int) % pi);
    }
}

proof fn lemma_binomial_one_top(n: nat)
    ensures
        binomial(n, n) == 1,
    decreases n,
{
    if n > 0 {
        lemma_binomial_one_top((n - 1) as nat);
        lemma_binomial_above((n - 1) as nat, n);
    }
}

/// Fermat's little theorem: `a^(p - 1) = 1` modulo a prime `p` for `a` in `(0, p)`.
pub proof fn lemma_fermat(a: int, p: int)
    requires
        is_prime(p),
        0 < a < p,
    ensures
        pow(a, (p - 1) as nat) % p == 1,
{
    lemma_pow_prime(a as nat, p as nat);
    let e = pow(a, (p - 1) as nat);
    assert(pow(a, p as nat) == a * e) by {
        reveal(pow);
    }
    lemma_small_mod(a as nat, p as nat);
    assert(a * (e - 1) == a * e - a) by (nonlinear_arith);
    assert((a * e - a) % p == 0) by {
        lemma_fundamental_div_mod(a * e, p);
        let k = (a * e) / p;
        assert(a * e - a == k * p) by (nonlinear_arith)
            requires
                a * e == p * k + a,
        ;
        lemma_mod_multiples_basic(k, p);
    }
    lemma_euclid(a, e - 1, p);
    lemma_fundamental_div_mod(e - 1, p);
    lemma_mod_multiples_vanish((e - 1) / p, 1, p);
    lemma_small_mod(1, p as nat);
}

} // verus!
