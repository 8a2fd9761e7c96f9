//! Lists of polynomial degrees, one per variable, written as types.

use std::marker::PhantomData;
use vstd::prelude::*;

verus! {

/// A list of degrees that starts with `D` and goes on with the list `T`;
/// `()` is the empty list.
pub struct Term<const D: usize, T>(pub PhantomData<T>);

/// The product of `factor * d + 1` over the degrees `d` of a list.
pub open spec fn product_of(degrees: Seq<nat>, factor: nat) -> nat
    decreases degrees.len(),
{
    if degrees.len() == 0 {
        1
    } else {
        (factor * degrees[0] + 1) * product_of(degrees.drop_first(), factor)
    }
}

/// What indexing a list of degrees gives: the degree at `idx`, zero one place
/// behind the last degree, and nothing further out.
pub open spec fn index_of(degrees: Seq<nat>, idx: nat) -> Option<usize> {
    if idx < degrees.len() {
        Some(degrees[idx as int] as usize)
    } else if idx == degrees.len() {
        Some(0usize)
    } else {
        None
    }
}

/// Whether the length of a list of degrees and both of its products fit in a
/// machine word.
pub open spec fn fits(degrees: Seq<nat>) -> bool {
    &&& degrees.len() <= usize::MAX
    &&& product_of(degrees, 1) <= usize::MAX
    &&& product_of(degrees, 2) <= usize::MAX
}

/// A product of degrees is at least one, and a list that fits has a tail that
/// fits.
pub proof fn lemma_fits_tail(degrees: Seq<nat>)
    requires
        degrees.len() > 0,
        fits(degrees),
    ensures
        fits(degrees.drop_first()),
        degrees[0] * 2 + 1 <= usize::MAX,
{
    let tail = degrees.drop_first();
    let d = degrees[0];
    lemma_product_positive(tail, 1);
    lemma_product_positive(tail, 2);
    let p = product_of(tail, 1);
    let q = product_of(tail, 2);
    assert(p <= (1 * d + 1) * p) by (nonlinear_arith)
        requires
            p >= 1,
            d >= 0,
    ;
    assert(q <= (2 * d + 1) * q && 2 * d + 1 <= (2 * d + 1) * q) by (nonlinear_arith)
        requires
            q >= 1,
            d >= 0,
    ;
}

/// A product of degrees is at least one.
pub proof fn lemma_product_positive(degrees: Seq<nat>, factor: nat)
    ensures
        product_of(degrees, factor) >= 1,
    decreases degrees.len(),
{
    if degrees.len() > 0 {
        lemma_product_positive(degrees.drop_first(), factor);
        let a = factor * degrees[0] + 1;
        let b = product_of(degrees.drop_first(), factor);
        assert(a * b >= 1) by (nonlinear_arith)
            requires
                a >= 1,
                b >= 1,
        ;
    }
}

/// A list of degrees known at compile time.
pub trait DegreeItem {
    /// The first degree of the list, zero for the empty list.
    const DEGREE: usize;

    /// The number of terms of the square of a polynomial with these degrees:
    /// the product of `2 * d + 1` over the list.
    const SUMMED_POWERS: usize;

    /// The number of coefficients of a polynomial with these degrees: the
    /// product of `d + 1` over the list.
    const COEFFICIENTS: usize;

    /// The number of degrees in the list.
    const DIMENSIONS: usize;

    /// The degrees, first to last.
    spec fn degrees() -> Seq<nat>;

    /// The constants are what their names say of the list of degrees, as long
    /// as the counts fit in a machine word.
    proof fn lemma_constants()
        requires
            fits(Self::degrees()),
        ensures
            Self::DEGREE == if Self::degrees().len() == 0 {
                0
            } else {
                Self::degrees()[0]
            },
            Self::DIMENSIONS == Self::degrees().len(),
            Self::COEFFICIENTS == product_of(Self::degrees(), 1),
            Self::SUMMED_POWERS == product_of(Self::degrees(), 2),
    ;

    /// The degree at place `idx` of the list.
    fn degree_at(idx: usize) -> (r: Option<usize>)
        ensures
            r == index_of(Self::degrees(), idx as nat),
    ;
}

impl<const D: usize, T: DegreeItem> DegreeItem for Term<D, T> {
    const DEGREE: usize = D;

    const SUMMED_POWERS: usize = (D * 2 + 1) * T::SUMMED_POWERS;

    const COEFFICIENTS: usize = (D + 1) * T::COEFFICIENTS;

    const DIMENSIONS: usize = 1 + T::DIMENSIONS;

    open spec fn degrees() -> Seq<nat> {
        seq![D as nat] + T::degrees()
    }

    proof fn lemma_constants() {
        assert(Self::degrees().drop_first() =~= T::degrees());
        lemma_fits_tail(Self::degrees());
        T::lemma_constants();
    }

    fn degree_at(idx: usize) -> (r: Option<usize>) {
        if idx == 0 {
            Some(D)
        } else {
            T::degree_at(idx - 1)
        }
    }
}

impl DegreeItem for () {
    const DEGREE: usize = 0;

    const SUMMED_POWERS: usize = 1;

    const COEFFICIENTS: usize = 1;

    const DIMENSIONS: usize = 0;

    open spec fn degrees() -> Seq<nat> {
        Seq::empty()
    }

    proof fn lemma_constants() {
    }

    fn degree_at(idx: usize) -> (r: Option<usize>) {
        if idx == 0 {
            Some(0)
        } else {
            None
        }
    }
}

/// The degree at place `idx` of the list `T`: `Some` of it for a place in the
/// list, `Some(0)` for the place just behind the list, `None` further out.
pub fn index_degree<T: DegreeItem>(idx: usize) -> (r: Option<usize>)
    ensures
        r == index_of(T::degrees(), idx as nat),
{
    T::degree_at(idx)
}

impl<const D: usize, T: DegreeItem> Term<D, T> {
    /// The degree at place `idx` of this list.
    pub fn index(idx: usize) -> (r: Option<usize>)
        ensures
            r == index_of(Self::degrees(), idx as nat),
    {
        index_degree::<Self>(idx)
    }
}

} // verus!
