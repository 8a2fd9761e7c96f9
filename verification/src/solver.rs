//! The decisions of the ellipsoid fit that do not need real arithmetic: which
//! eigenvalue is the dominant one, when a sign is flipped, when a result has
//! to be refused, and how the entries of the vectors and matrices are laid
//! out.
//!
//! Real numbers come in as their IEEE 754 binary64 bit patterns: one sign bit,
//! then 63 bits of magnitude that grow with the absolute value.

use crate::error::CalibrationError;
use vstd::prelude::*;

verus! {

/// The bit that holds the sign of a pattern.
pub const SIGN_BIT: u64 = 0x8000_0000_0000_0000;

/// The pattern of positive infinity: every larger magnitude is not a number.
pub const INFINITY_BITS: u64 = 0x7ff0_0000_0000_0000;

/// The 63 bits of a pattern below the sign bit.
pub open spec fn magnitude(bits: u64) -> int {
    if bits >= SIGN_BIT {
        bits - SIGN_BIT
    } else {
        bits as int
    }
}

/// Whether a pattern stands for no number.
pub open spec fn is_nan(bits: u64) -> bool {
    magnitude(bits) > INFINITY_BITS
}

/// Whether a pattern stands for zero, of either sign.
pub open spec fn is_zero(bits: u64) -> bool {
    magnitude(bits) == 0
}

/// Whether a pattern stands for a number below zero.
pub open spec fn is_negative(bits: u64) -> bool {
    bits > SIGN_BIT && !is_nan(bits)
}

/// An integer that orders the patterns of numbers as the numbers themselves
/// are ordered: the magnitude, negated where the sign bit is set. Both zeros
/// have the key zero.
pub open spec fn order_key(bits: u64) -> int {
    if bits >= SIGN_BIT {
        -magnitude(bits)
    } else {
        magnitude(bits)
    }
}

/// The order key of a pattern.
pub fn key_of(bits: u64) -> (key: i64)
    ensures
        key == order_key(bits),
{
    if bits >= SIGN_BIT {
        let m: u64 = bits - SIGN_BIT;
        -(m as i64)
    } else {
        bits as i64
    }
}

/// Whether `i` is the place of the dominant value of `values`: none is
/// greater, and every value before it is smaller.
pub open spec fn is_dominant(values: Seq<(u64, u64)>, i: int) -> bool {
    &&& 0 <= i < values.len()
    &&& forall|k: int| 0 <= k < values.len() ==> order_key(values[k].0) <= order_key(values[i].0)
    &&& forall|k: int| 0 <= k < i ==> order_key(values[k].0) < order_key(values[i].0)
}

/// Whether every real part in `values` is a number.
pub open spec fn all_numbers(values: Seq<(u64, u64)>) -> bool {
    forall|k: int| 0 <= k < values.len() ==> !is_nan(#[trigger] values[k].0)
}

/// At most one place is the dominant one.
pub proof fn lemma_dominant_unique(values: Seq<(u64, u64)>, i: int, j: int)
    requires
        is_dominant(values, i),
        is_dominant(values, j),
    ensures
        i == j,
{
    if i < j {
        assert(order_key(values[i].0) < order_key(values[j].0));
    } else if j < i {
        assert(order_key(values[j].0) < order_key(values[i].0));
    }
}

/// The place of the dominant eigenvalue among `values`, each given as its
/// real and its imaginary part.
///
/// The eigenvalues are ordered by their real parts alone, and among equal
/// ones the first wins. The choice is refused as ambiguous where there is no
/// eigenvalue, where a real part is not a number, and where the eigenvalue
/// chosen is not real, that is, its imaginary part is not zero.
pub fn dominant_index(values: &[(u64, u64)]) -> (r: Result<usize, CalibrationError>)
    ensures
        r matches Ok(i) ==> is_dominant(values@, i as int) && all_numbers(values@) && is_zero(
            values[i as int].1,
        ),
        r matches Err(e) ==> e == CalibrationError::EigenvalueAmbiguity,
        r is Err <==> values.len() == 0 || !all_numbers(values@) || exists|i: int|
            is_dominant(values@, i) && !is_zero(values[i].1),
{
    let n: usize = values.len();
    if n == 0 {
        return Err(CalibrationError::EigenvalueAmbiguity);
    }
    let mut index: usize = 0;
    let mut k: usize = 0;
    while k < n
        invariant
            n == values.len(),
            0 <= index < n,
            k <= n,
            index <= k,
            forall|a: int| 0 <= a < k ==> !is_nan(#[trigger] values[a].0),
            forall|a: int| 0 <= a < k ==> order_key(values[a].0) <= order_key(values[index as int].0),
            forall|a: int| 0 <= a < index ==> order_key(values[a].0) < order_key(values[index as int].0),
        decreases n - k,
    {
        let bits: u64 = values[k].0;
        let m: u64 = if bits >= SIGN_BIT {
            bits - SIGN_BIT
        } else {
            bits
        };
        if m > INFINITY_BITS {
            assert(is_nan(values[k as int].0));
            return Err(CalibrationError::EigenvalueAmbiguity);
        }
        if key_of(bits) > key_of(values[index].0) {
            index = k;
        }
        k += 1;
    }
    assert(is_dominant(values@, index as int));
    let imaginary: u64 = values[index].1;
    if imaginary == 0 || imaginary == SIGN_BIT {
        Ok(index)
    } else {
        assert forall|i: int| is_dominant(values@, i) implies i == index by {
            lemma_dominant_unique(values@, i, index as int);
        }
        Err(CalibrationError::EigenvalueAmbiguity)
    }
}

/// Whether an eigenvector has to be negated so that its sign is fixed: it is
/// where its first component is below zero.
pub fn needs_negation(first: u64) -> (flip: bool)
    ensures
        flip == is_negative(first),
{
    first > SIGN_BIT && first - SIGN_BIT <= INFINITY_BITS
}

/// The pattern of the number with the other sign.
pub open spec fn negated(bits: u64) -> u64 {
    if bits >= SIGN_BIT {
        (bits - SIGN_BIT) as u64
    } else {
        (bits + SIGN_BIT) as u64
    }
}

/// Of a number other than zero and its negation, exactly one is below zero:
/// a vector whose first component is not zero and the negated vector are
/// brought to the same sign.
pub proof fn lemma_one_sign_is_negated(first: u64)
    requires
        !is_nan(first),
        !is_zero(first),
    ensures
        is_negative(first) != is_negative(negated(first)),
        negated(negated(first)) == first,
{
}

/// Admits `value` to a square root: a number below zero has none, and the
/// data then fit no ellipsoid.
pub fn root_domain(value: u64) -> (r: Result<(), CalibrationError>)
    ensures
        r is Err <==> is_negative(value),
        r matches Err(e) ==> e == CalibrationError::NonPositiveDefinite,
{
    if needs_negation(value) {
        Err(CalibrationError::NonPositiveDefinite)
    } else {
        Ok(())
    }
}

/// Takes the inverse that an inversion has found, or reports that the matrix
/// is singular where it has found none.
pub fn require_inverse<M>(inverse: Option<M>) -> (r: Result<M, CalibrationError>)
    ensures
        inverse matches Some(m) ==> r == Ok::<M, CalibrationError>(m),
        inverse is None ==> r == Err::<M, CalibrationError>(CalibrationError::SingularMatrix),
{
    match inverse {
        Some(m) => Ok(m),
        None => Err(CalibrationError::SingularMatrix),
    }
}

/// Four times the entry in row `i` and column `j` of the constraint matrix
/// that is applied to the reduced scatter matrix: twice the off-diagonal ones
/// in the block of the squares, minus one on the diagonal of the mixed
/// products, zero elsewhere.
pub open spec fn constraint_quarters_at(i: int, j: int) -> int {
    if 0 <= i < 3 && 0 <= j < 3 {
        if i == j {
            0
        } else {
            2
        }
    } else if 3 <= i < 6 && i == j {
        -1
    } else {
        0
    }
}

/// Entry `(i, j)` of the matrix of which the constraint matrix is the inverse:
/// the quadratic form `4 * (ab + ac + bc - f*f - g*g - h*h) - (a + b + c)^2`
/// on the six coefficients of the quadratic part, which is positive exactly
/// for ellipsoids.
pub open spec fn ellipsoid_form_at(i: int, j: int) -> int {
    if 0 <= i < 3 && 0 <= j < 3 {
        if i == j {
            -1
        } else {
            1
        }
    } else if 3 <= i < 6 && i == j {
        -4
    } else {
        0
    }
}

/// The product of row `i` of four times the constraint matrix with column `j`
/// of the matrix of the ellipsoid form.
pub open spec fn constraint_product_at(i: int, j: int) -> int {
    constraint_quarters_at(i, 0) * ellipsoid_form_at(0, j) + constraint_quarters_at(i, 1)
        * ellipsoid_form_at(1, j) + constraint_quarters_at(i, 2) * ellipsoid_form_at(2, j)
        + constraint_quarters_at(i, 3) * ellipsoid_form_at(3, j) + constraint_quarters_at(i, 4)
        * ellipsoid_form_at(4, j) + constraint_quarters_at(i, 5) * ellipsoid_form_at(5, j)
}

/// The constraint matrix is the inverse of the matrix of the ellipsoid form:
/// four times their product is four times the identity.
pub proof fn lemma_constraint_inverts_form(i: int, j: int)
    requires
        0 <= i < 6,
        0 <= j < 6,
    ensures
        constraint_product_at(i, j) == if i == j {
            4int
        } else {
            0int
        },
{
}

/// Four times the entry in row `i` and column `j` of the constraint matrix.
pub fn constraint_quarters(i: usize, j: usize) -> (q: i8)
    requires
        i < 6,
        j < 6,
    ensures
        q == constraint_quarters_at(i as int, j as int),
{
    if i < 3 && j < 3 {
        if i == j {
            0
        } else {
            2
        }
    } else if i == j {
        -1
    } else {
        0
    }
}

/// Which entry of the dominant eigenvector stands in row `i` and column `j`
/// of the shape matrix: the first three on the diagonal, the last three off
/// it, so that entry 3 belongs to `yz`, 4 to `xz` and 5 to `xy`.
pub open spec fn shape_index(i: int, j: int) -> int {
    if i == j {
        i
    } else {
        6 - i - j
    }
}

/// The shape matrix takes the same entry at `(i, j)` and at `(j, i)`, and
/// every entry of the eigenvector is used.
pub proof fn lemma_shape_index(i: int, j: int)
    requires
        0 <= i < 3,
        0 <= j < 3,
    ensures
        0 <= shape_index(i, j) < 6,
        shape_index(i, j) == shape_index(j, i),
        i == j ==> shape_index(i, j) < 3,
        i != j ==> shape_index(i, j) >= 3,
{
}

/// The symmetric 3 by 3 shape matrix whose six independent entries are those
/// of `v`.
pub fn shape_matrix<T: Copy>(v: &[T; 6]) -> (q: [[T; 3]; 3])
    ensures
        forall|i: int, j: int| 0 <= i < 3 && 0 <= j < 3 ==> q[i][j] == v[shape_index(i, j)],
{
    let q: [[T; 3]; 3] = [[v[0], v[5], v[4]], [v[5], v[1], v[3]], [v[4], v[3], v[2]]];
    assert forall|i: int, j: int| 0 <= i < 3 && 0 <= j < 3 implies q[i][j] == v[shape_index(i, j)] by {
        assert(q[0] == [v[0], v[5], v[4]]);
        assert(q[1] == [v[5], v[1], v[3]]);
        assert(q[2] == [v[4], v[3], v[2]]);
    }
    q
}

/// The first three entries of the solution of the linear block, and its
/// fourth: the vector that fixes the centre, and the constant term.
pub fn split_linear<T: Copy>(v: &[T; 4]) -> (r: ([T; 3], T))
    ensures
        r.0@ == v@.subrange(0, 3),
        r.1 == v[3],
{
    let u: [T; 3] = [v[0], v[1], v[2]];
    assert(u@ =~= v@.subrange(0, 3));
    (u, v[3])
}

/// A calibration: the offset to subtract from a reading, and the linear map
/// to apply to the difference.
pub struct CalibrationMatrix<T> {
    /// Row 0 is the offset, rows 1 to 3 are the linear map.
    pub rows: [[T; 3]; 4],
}

impl<T: Copy> CalibrationMatrix<T> {
    /// The calibration with the offset `center` and the linear map `linear`.
    pub fn assemble(center: &[T; 3], linear: &[[T; 3]; 3]) -> (m: Self)
        ensures
            m.rows[0] == *center,
            forall|i: int| 0 <= i < 3 ==> m.rows[1 + i] == linear[i],
    {
        CalibrationMatrix { rows: [*center, linear[0], linear[1], linear[2]] }
    }

    /// The offset: row 0.
    pub fn offset(&self) -> (center: [T; 3])
        ensures
            center == self.rows[0],
    {
        self.rows[0]
    }

    /// The linear map: rows 1 to 3.
    pub fn linear(&self) -> (linear: [[T; 3]; 3])
        ensures
            forall|i: int| 0 <= i < 3 ==> linear[i] == self.rows[1 + i],
    {
        [self.rows[1], self.rows[2], self.rows[3]]
    }
}

} // verus!
