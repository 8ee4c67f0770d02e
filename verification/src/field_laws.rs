//! The field in coordinates: pairs of complex numbers modulo `2^31 - 1`.
use vstd::prelude::*;

use crate::field::Ext;

verus! {

/// A complex number over the integers.
pub ghost struct Complex {
    pub re: int,
    pub im: int,
}

pub open spec fn complex_sum(x: Complex, y: Complex) -> Complex {
    Complex { re: x.re + y.re, im: x.im + y.im }
}

pub open spec fn complex_product(x: Complex, y: Complex) -> Complex {
    Complex { re: x.re * y.re - x.im * y.im, im: x.re * y.im + x.im * y.re }
}

/// The two complex numbers of an element: `x.0 + x.1 * u`.
pub open spec fn halves(x: Ext) -> (Complex, Complex) {
    (Complex { re: x.a, im: x.b }, Complex { re: x.c, im: x.d })
}

/// An element has the given halves, modulo `2^31 - 1`.
pub open spec fn has_halves(x: Ext, low: Complex, high: Complex) -> bool {
    &&& x.a == low.re % 0x7fff_ffff
    &&& x.b == low.im % 0x7fff_ffff
    &&& x.c == high.re % 0x7fff_ffff
    &&& x.d == high.im % 0x7fff_ffff
}

/// Sums and differences are taken half by half. A product is that of two polynomials in
/// `u`, where `u` squared is `2 + i`.
pub proof fn lemma_field_operations(x: Ext, y: Ext)
    ensures
        ({
            let (x0, x1) = halves(x);
            let (y0, y1) = halves(y);
            let minus = Complex { re: -1, im: 0 };
            let square = Complex { re: 2, im: 1 };
            &&& has_halves(x + y, complex_sum(x0, y0), complex_sum(x1, y1))
            &&& has_halves(
                x - y,
                complex_sum(x0, complex_product(minus, y0)),
                complex_sum(x1, complex_product(minus, y1)),
            )
            &&& has_halves(-x, complex_product(minus, x0), complex_product(minus, x1))
            &&& has_halves(
                x * y,
                complex_sum(complex_product(x0, y0), complex_product(square, complex_product(x1, y1))),
                complex_sum(complex_product(x0, y1), complex_product(x1, y0)),
            )
        }),
{
    reveal(Ext::spec_add);
    reveal(Ext::spec_sub);
    reveal(Ext::spec_neg);
    reveal(Ext::spec_mul);
    let (x0, x1) = halves(x);
    let (y0, y1) = halves(y);
    let p = complex_product(x1, y1);
    let r = x.raw_mul(y);
    assert(r.a == x.a * y.a - x.b * y.b + (2 * p.re - 1 * p.im));
    assert(r.b == x.a * y.b + x.b * y.a + (2 * p.im + 1 * p.re));
    let low = complex_sum(complex_product(x0, y0), complex_product(Complex { re: 2, im: 1 }, p));
    let high = complex_sum(complex_product(x0, y1), complex_product(x1, y0));
    assert(r.a == low.re && r.b == low.im && r.c == high.re && r.d == high.im);
}

/// An integer stands for the element whose first coordinate is its remainder.
pub proof fn lemma_integers_in_field(v: int)
    ensures
        has_halves(Ext::base(v), Complex { re: v, im: 0 }, Complex { re: 0, im: 0 }),
{
}

} // verus!
