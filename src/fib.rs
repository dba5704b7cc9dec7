//! Fibonacci numbers at arbitrary indices by squaring the step matrix.
use crate::bigint::{big_add, big_from_u64, big_mul, int_of};
use ibig::IBig;
use vstd::prelude::*;

verus! {

/// F(0) = 0, F(1) = 1, F(n) = F(n - 1) + F(n - 2).
pub open spec fn fib(n: nat) -> nat
    decreases n,
{
    if n == 0 {
        0
    } else if n == 1 {
        1
    } else {
        fib((n - 1) as nat) + fib((n - 2) as nat)
    }
}

/// A 2x2 matrix of integers.
pub struct Mat {
    pub a11: int,
    pub a12: int,
    pub a21: int,
    pub a22: int,
}

pub open spec fn mat_mul(x: Mat, y: Mat) -> Mat {
    Mat {
        a11: x.a11 * y.a11 + x.a12 * y.a21,
        a12: x.a11 * y.a12 + x.a12 * y.a22,
        a21: x.a21 * y.a11 + x.a22 * y.a21,
        a22: x.a21 * y.a12 + x.a22 * y.a22,
    }
}

/// The k-th power of the step matrix [[1, 1], [1, 0]]:
/// [[F(k + 1), F(k)], [F(k), F(k - 1)]], with F(-1) = F(1) - F(0) = 1.
pub open spec fn fib_mat(k: nat) -> Mat {
    Mat {
        a11: fib(k + 1) as int,
        a12: fib(k) as int,
        a21: fib(k) as int,
        a22: fib(k + 1) - fib(k),
    }
}

/// F(a + b + 1) == F(a + 1) F(b + 1) + F(a) F(b).
pub proof fn lemma_fib_add(a: nat, b: nat)
    ensures
        fib(a + b + 1) == fib(a + 1) * fib(b + 1) + fib(a) * fib(b),
    decreases b,
{
    if b == 0 {
        assert(fib(1) == 1);
        assert(fib(0) == 0);
        assert(fib(a + b + 1) == fib(a + 1) * fib(b + 1) + fib(a) * fib(b));
    } else if b == 1 {
        assert(fib(2) == 1) by {
            reveal_with_fuel(fib, 3);
        }
        assert(fib(a + 2) == fib(a + 1) + fib(a));
        assert(fib(b + 1) == 1 && fib(b) == 1);
        assert(fib(a + b + 1) == fib(a + 1) * fib(b + 1) + fib(a) * fib(b));
    } else {
        lemma_fib_add(a, (b - 1) as nat);
        lemma_fib_add(a, (b - 2) as nat);
        let fa1 = fib(a + 1) as int;
        let fa = fib(a) as int;
        let f0 = fib((b - 2) as nat) as int;
        let f1 = fib((b - 1) as nat) as int;
        let f2 = fib(b) as int;
        assert(fib(b + 1) == f2 + f1);
        assert(f2 == f1 + f0);
        assert(a + (b - 1) as nat + 1 == a + b);
        assert(a + (b - 2) as nat + 1 == (a + b - 1) as nat);
        assert(fib(a + b) == fa1 * f2 + fa * f1);
        assert(fib((a + b - 1) as nat) == fa1 * f1 + fa * f0);
        assert(fib(a + b + 1) == fib(a + b) + fib((a + b - 1) as nat));
        assert(fa1 * (f2 + f1) + fa * (f1 + f0) == (fa1 * f2 + fa * f1) + (fa1 * f1 + fa * f0))
            by (nonlinear_arith);
        assert(fib(a + b + 1) == fib(a + 1) * fib(b + 1) + fib(a) * fib(b));
    }
}

/// F(a + b) == F(a + 1) F(b) + F(a) F(b - 1), with F(-1) = 1.
proof fn lemma_fib_add_low(a: nat, b: nat)
    ensures
        fib(a + b) == fib(a + 1) * fib(b) + fib(a) * (fib(b + 1) - fib(b)),
{
    if b == 0 {
        assert(fib(1) == 1 && fib(0) == 0);
        assert(fib(b + 1) - fib(b) == 1);
        assert(fib(a + b) == fib(a + 1) * fib(b) + fib(a) * (fib(b + 1) - fib(b)));
    } else {
        lemma_fib_add(a, (b - 1) as nat);
        assert(a + (b - 1) as nat + 1 == a + b);
        assert((b - 1) as nat + 1 == b);
        assert(fib(b + 1) == fib(b) + fib((b - 1) as nat));
    }
}

/// Powers of the step matrix add up their exponents.
pub proof fn lemma_fib_mat_mul(a: nat, b: nat)
    ensures
        mat_mul(fib_mat(a), fib_mat(b)) == fib_mat(a + b),
{
    lemma_fib_add(a, b);
    lemma_fib_add_low(a, b);
    lemma_fib_add_low(b, a);
    let fa1 = fib(a + 1) as int;
    let fa = fib(a) as int;
    let fb1 = fib(b + 1) as int;
    let fb = fib(b) as int;
    assert(fa * fb + (fa1 - fa) * (fb1 - fb) == (fa1 * fb1 + fa * fb) - (fa1 * fb + fa * (fb1
        - fb))) by (nonlinear_arith);
    assert(fa * fb1 + (fa1 - fa) * fb == fb1 * fa + fb * (fa1 - fa)) by (nonlinear_arith);
}

/// A 2x2 matrix of big integers.
pub struct Matrix2x2 {
    pub a11: IBig,
    pub a12: IBig,
    pub a21: IBig,
    pub a22: IBig,
}

impl Matrix2x2 {
    pub open spec fn view(&self) -> Mat {
        Mat {
            a11: int_of(self.a11),
            a12: int_of(self.a12),
            a21: int_of(self.a21),
            a22: int_of(self.a22),
        }
    }

    pub fn new(a11: IBig, a12: IBig, a21: IBig, a22: IBig) -> (r: Self)
        ensures
            r.a11 == a11,
            r.a12 == a12,
            r.a21 == a21,
            r.a22 == a22,
    {
        Matrix2x2 { a11, a12, a21, a22 }
    }
}

/// The matrix product `x * y`.
pub fn dot(x: &Matrix2x2, y: &Matrix2x2) -> (r: Matrix2x2)
    ensures
        r.view() == mat_mul(x.view(), y.view()),
{
    Matrix2x2 {
        a11: big_add(&big_mul(&x.a11, &y.a11), &big_mul(&x.a12, &y.a21)),
        a12: big_add(&big_mul(&x.a11, &y.a12), &big_mul(&x.a12, &y.a22)),
        a21: big_add(&big_mul(&x.a21, &y.a11), &big_mul(&x.a22, &y.a21)),
        a22: big_add(&big_mul(&x.a21, &y.a12), &big_mul(&x.a22, &y.a22)),
    }
}

/// `(F(n + 1), F(n))`, by square-and-multiply over the bits of `n`.
pub fn calc_fib_x(n: i64) -> (r: (IBig, IBig))
    requires
        n >= 0,
    ensures
        int_of(r.0) == fib(n as nat + 1),
        int_of(r.1) == fib(n as nat),
{
    let mut matrix = Matrix2x2::new(big_from_u64(1), big_from_u64(0), big_from_u64(0), big_from_u64(1));
    let mut matrix2 = Matrix2x2::new(big_from_u64(1), big_from_u64(1), big_from_u64(1), big_from_u64(0));
    let mut x: i64 = n;
    let ghost mut done: nat = 0;
    let ghost mut p: nat = 1;
    proof {
        reveal_with_fuel(fib, 3);
    }
    while x > 0
        invariant
            0 <= x <= n,
            done + x * p == n,
            matrix.view() == fib_mat(done),
            matrix2.view() == fib_mat(p),
        decreases x,
    {
        if x % 2 == 1 {
            proof {
                lemma_fib_mat_mul(done, p);
            }
            matrix = dot(&matrix, &matrix2);
            proof {
                done = done + p;
            }
        }
        proof {
            lemma_fib_mat_mul(p, p);
        }
        matrix2 = dot(&matrix2, &matrix2);
        proof {
            let xi = x as int;
            assert((xi / 2) * (2 * p) == (xi / 2 * 2) * p) by (nonlinear_arith);
            assert(xi * p == (xi / 2 * 2) * p + (xi % 2) * p) by (nonlinear_arith)
                requires xi == xi / 2 * 2 + xi % 2;
            p = 2 * p;
        }
        x = x / 2;
    }
    assert(done == n);
    (matrix.a11, matrix.a12)
}

/// The pair `(F(n), F(n + 1))`.
pub open spec fn fib_pair(n: nat) -> (int, int) {
    (fib(n) as int, fib(n + 1) as int)
}

/// One step of the scan: `(a, b)` becomes `(b, a + b)`.
pub open spec fn pair_step(p: (int, int)) -> (int, int) {
    (p.1, p.0 + p.1)
}

/// Stepping once by addition from the pair at `n` gives the pair at `n + 1`.
pub proof fn lemma_pair_step(n: nat)
    ensures
        pair_step(fib_pair(n)) == fib_pair(n + 1),
{
    assert(fib(n + 2) == fib(n + 1) + fib(n));
}

} // verus!
